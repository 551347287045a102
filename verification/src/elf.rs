//! Parsing of x86_64 ELF files: header, program headers, section headers and
//! relocation entries.
use vstd::prelude::*;

verus! {

#[derive(Debug, PartialEq, Eq, Structural)]
pub enum InvalidElfHeader {
    InvalidMagic,
    InvalidClass,
    InvalidEndianess,
    InvalidVersion,
    InvalidAbi,
    InvalidElfType,
    InvalidMachine,
}

#[derive(Debug, PartialEq, Eq, Structural)]
pub enum InvalidProgramHeader {
    UnknownSegmentFlags,
    InvalidSegmentType,
    InvalidAlignment,
    InvalidHeaderOffset,
}

#[derive(Debug, PartialEq, Eq, Structural)]
pub enum InvalidSectionHeader {
    InvalidHeaderType,
    InvalidSectionFlags,
    InvalidHeaderOffset,
}

#[derive(Debug, PartialEq, Eq, Structural)]
pub enum InvalidRelocationType {
    InvalidType,
}

#[derive(Debug, PartialEq, Eq, Structural)]
pub enum ElfError {
    InvalidElfHeader(InvalidElfHeader),
    InvalidProgramHeader(InvalidProgramHeader),
    InvalidSectionHeader(InvalidSectionHeader),
    InvalidRelocationType(InvalidRelocationType),
    Other,
}

/// The little-endian `u16` at `off`.
pub open spec fn le_u16(s: Seq<u8>, off: int) -> u16 {
    (s[off] as u16) | ((s[off + 1] as u16) << 8u16)
}

/// The little-endian `u32` at `off`.
pub open spec fn le_u32(s: Seq<u8>, off: int) -> u32 {
    (s[off] as u32) | ((s[off + 1] as u32) << 8u32) | ((s[off + 2] as u32) << 16u32) | ((s[off
        + 3] as u32) << 24u32)
}

/// The little-endian `u64` at `off`.
pub open spec fn le_u64(s: Seq<u8>, off: int) -> u64 {
    (s[off] as u64) | ((s[off + 1] as u64) << 8u64) | ((s[off + 2] as u64) << 16u64) | ((s[off
        + 3] as u64) << 24u64) | ((s[off + 4] as u64) << 32u64) | ((s[off + 5] as u64) << 40u64)
        | ((s[off + 6] as u64) << 48u64) | ((s[off + 7] as u64) << 56u64)
}

fn read_u16(raw: &[u8], off: usize) -> (r: u16)
    requires
        off + 2 <= raw@.len(),
    ensures
        r == le_u16(raw@, off as int),
{
    (raw[off] as u16) | ((raw[off + 1] as u16) << 8u16)
}

fn read_u32(raw: &[u8], off: usize) -> (r: u32)
    requires
        off + 4 <= raw@.len(),
    ensures
        r == le_u32(raw@, off as int),
{
    (raw[off] as u32) | ((raw[off + 1] as u32) << 8u32) | ((raw[off + 2] as u32) << 16u32) | ((
    raw[off + 3] as u32) << 24u32)
}

fn read_u64(raw: &[u8], off: usize) -> (r: u64)
    requires
        off + 8 <= raw@.len(),
    ensures
        r == le_u64(raw@, off as int),
{
    (raw[off] as u64) | ((raw[off + 1] as u64) << 8u64) | ((raw[off + 2] as u64) << 16u64) | ((
    raw[off + 3] as u64) << 24u64) | ((raw[off + 4] as u64) << 32u64) | ((raw[off + 5] as u64)
        << 40u64) | ((raw[off + 6] as u64) << 48u64) | ((raw[off + 7] as u64) << 56u64)
}

/// The file's header.
#[derive(Debug)]
pub struct ElfHeader {
    pub entry: u64,
    pub phoff: u64,
    pub shoff: u64,
    pub phentsize: u16,
    pub phnum: u16,
    pub shentsize: u16,
    pub shnum: u16,
    pub shstrndx: u16,
}

/// The check of an ELF header that fails first, if any: magic, class (64 bit,
/// reported as a bad type), endianness (little), version (1), ABI (System V),
/// type (0 to 4) and machine (x86_64).
pub open spec fn header_error(raw: Seq<u8>) -> Option<ElfError> {
    if !(raw[0] == 0x7f && raw[1] == 0x45 && raw[2] == 0x4c && raw[3] == 0x46) {
        Some(ElfError::InvalidElfHeader(InvalidElfHeader::InvalidMagic))
    } else if raw[4] != 2 {
        Some(ElfError::InvalidElfHeader(InvalidElfHeader::InvalidElfType))
    } else if raw[5] != 1 {
        Some(ElfError::InvalidElfHeader(InvalidElfHeader::InvalidEndianess))
    } else if raw[6] != 1 {
        Some(ElfError::InvalidElfHeader(InvalidElfHeader::InvalidVersion))
    } else if raw[7] != 0 {
        Some(ElfError::InvalidElfHeader(InvalidElfHeader::InvalidAbi))
    } else if le_u16(raw, 0x10) > 4 {
        Some(ElfError::InvalidElfHeader(InvalidElfHeader::InvalidElfType))
    } else if le_u16(raw, 0x12) != 0x3e {
        Some(ElfError::InvalidElfHeader(InvalidElfHeader::InvalidMachine))
    } else {
        None
    }
}

/// The header's fields as they stand in `raw`.
pub open spec fn header_fields(raw: Seq<u8>) -> ElfHeader {
    ElfHeader {
        entry: le_u64(raw, 0x18),
        phoff: le_u64(raw, 0x20),
        shoff: le_u64(raw, 0x28),
        phentsize: le_u16(raw, 0x36),
        phnum: le_u16(raw, 0x38),
        shentsize: le_u16(raw, 0x3a),
        shnum: le_u16(raw, 0x3c),
        shstrndx: le_u16(raw, 0x3e),
    }
}

/// The header parsed from `raw`.
pub open spec fn parse_header(raw: Seq<u8>) -> Result<ElfHeader, ElfError> {
    match header_error(raw) {
        Some(e) => Err(e),
        None => Ok(header_fields(raw)),
    }
}

/// Where the `i`-th of a table of entries lies.
pub open spec fn entry_offset(off: u64, entsize: u16, i: int) -> int {
    off + i * entsize
}

/// The entries `0..k` of a table of `entsize`-byte entries at `off`, each
/// parsed by `parse`: the first entry that does not fit in `raw` or does not
/// parse gives the error.
pub open spec fn parse_table<T>(
    raw: Seq<u8>,
    off: u64,
    entsize: u16,
    k: nat,
    parse: spec_fn(Seq<u8>) -> Result<T, ElfError>,
) -> Result<Seq<T>, ElfError>
    decreases k,
{
    if k == 0 {
        Ok(Seq::empty())
    } else {
        match parse_table(raw, off, entsize, (k - 1) as nat, parse) {
            Err(e) => Err(e),
            Ok(s) => {
                let o = entry_offset(off, entsize, k - 1);
                if o + entsize > raw.len() {
                    Err(ElfError::InvalidSectionHeader(InvalidSectionHeader::InvalidHeaderOffset))
                } else {
                    match parse(raw.skip(o)) {
                        Err(e) => Err(e),
                        Ok(h) => Ok(s.push(h)),
                    }
                }
            },
        }
    }
}

/// Once a table entry fails, the whole table fails with its error.
proof fn lemma_parse_table_err<T>(
    raw: Seq<u8>,
    off: u64,
    entsize: u16,
    k: nat,
    m: nat,
    parse: spec_fn(Seq<u8>) -> Result<T, ElfError>,
)
    requires
        k <= m,
        parse_table(raw, off, entsize, k, parse) is Err,
    ensures
        parse_table(raw, off, entsize, m, parse) == parse_table(raw, off, entsize, k, parse),
    decreases m - k,
{
    if k < m {
        lemma_parse_table_err(raw, off, entsize, k, (m - 1) as nat, parse);
    }
}

/// Every entry of the table that lies in `raw` has room for `need` bytes.
pub open spec fn table_fits(raw: Seq<u8>, off: u64, entsize: u16, num: u16, need: int) -> bool {
    forall|i: int|
        0 <= i < num && #[trigger] entry_offset(off, entsize, i) + entsize <= raw.len() ==> entry_offset(off, entsize, i)
            + need <= raw.len()
}

impl ElfHeader {
    /// Parses and checks the header at the start of `raw`.
    pub fn new(raw: &[u8]) -> (r: Result<Self, ElfError>)
        requires
            raw@.len() >= 0x40,
        ensures
            r == parse_header(raw@),
            r matches Ok(h) ==> {
                &&& h.entry == little_endian_at(raw@, 0x18)
                &&& h.phoff == little_endian_at(raw@, 0x20)
                &&& h.shoff == little_endian_at(raw@, 0x28)
                &&& h.phentsize == little_endian2_at(raw@, 0x36)
                &&& h.phnum == little_endian2_at(raw@, 0x38)
                &&& h.shentsize == little_endian2_at(raw@, 0x3a)
                &&& h.shnum == little_endian2_at(raw@, 0x3c)
                &&& h.shstrndx == little_endian2_at(raw@, 0x3e)
            },
    {
        proof {
            lemma_header_layout(raw@);
        }
        if !(raw[0] == 0x7f && raw[1] == 0x45 && raw[2] == 0x4c && raw[3] == 0x46) {
            return Err(ElfError::InvalidElfHeader(InvalidElfHeader::InvalidMagic));
        }
        if raw[4] != 2 {
            return Err(ElfError::InvalidElfHeader(InvalidElfHeader::InvalidElfType));
        }
        if raw[5] != 1 {
            return Err(ElfError::InvalidElfHeader(InvalidElfHeader::InvalidEndianess));
        }
        if raw[6] != 0x1 {
            return Err(ElfError::InvalidElfHeader(InvalidElfHeader::InvalidVersion));
        }
        if raw[7] != 0 {
            return Err(ElfError::InvalidElfHeader(InvalidElfHeader::InvalidAbi));
        }
        if ElfType::try_from(read_u16(raw, 0x10)).is_err() {
            return Err(ElfError::InvalidElfHeader(InvalidElfHeader::InvalidElfType));
        }
        if read_u16(raw, 0x12) != 0x3e {
            return Err(ElfError::InvalidElfHeader(InvalidElfHeader::InvalidMachine));
        }
        Ok(Self {
            entry: read_u64(raw, 0x18),
            phoff: read_u64(raw, 0x20),
            shoff: read_u64(raw, 0x28),
            phentsize: read_u16(raw, 0x36),
            phnum: read_u16(raw, 0x38),
            shentsize: read_u16(raw, 0x3a),
            shnum: read_u16(raw, 0x3c),
            shstrndx: read_u16(raw, 0x3e),
        })
    }

    /// The program headers of the file `raw` whose header this is.
    pub fn program_headers(&self, raw: &[u8]) -> (r: Result<Vec<ProgramHeader>, ElfError>)
        requires
            table_fits(raw@, self.phoff, self.phentsize, self.phnum, 0x38),
        ensures
            match r {
                Ok(v) => parse_table(raw@, self.phoff, self.phentsize, self.phnum as nat, |s| parse_program_header(s)) == Ok::<Seq<ProgramHeader>, ElfError>(v@),
                Err(e) => parse_table(raw@, self.phoff, self.phentsize, self.phnum as nat, |s| parse_program_header(s)) == Err::<Seq<ProgramHeader>, ElfError>(e),
            },
    {
        let phnum = self.phnum;
        let phoff = self.phoff;
        let phentsize = self.phentsize;
        let mut headers: Vec<ProgramHeader> = Vec::new();
        let mut i: u16 = 0;
        while i < phnum
            invariant
                i <= phnum,
                phnum == self.phnum,
                phoff == self.phoff,
                phentsize == self.phentsize,
                table_fits(raw@, self.phoff, self.phentsize, self.phnum, 0x38),
                parse_table(raw@, phoff, phentsize, i as nat, |s| parse_program_header(s)) == Ok::<Seq<ProgramHeader>, ElfError>(headers@),
            decreases phnum - i,
        {
            proof {
                assert(i * phentsize + phentsize <= phnum * phentsize) by (nonlinear_arith)
                    requires i < phnum;
            }
            assert(i as u64 * phentsize as u64 <= 0xffff * 0xffff) by (nonlinear_arith)
                requires
                    i <= 0xffff,
                    phentsize <= 0xffff,
            ;
            let step: u64 = i as u64 * phentsize as u64;
            let mut in_file = false;
            if step <= u64::MAX - phoff {
                let o: u64 = phoff + step;
                if phentsize as u64 <= u64::MAX - o {
                    in_file = o + phentsize as u64 <= raw.len() as u64;
                }
            }
            if !in_file {
                proof {
                    assert(entry_offset(phoff, phentsize, i as int) == phoff + step);
                    assert(raw@.len() == raw.len());
                    assert(raw.len() <= u64::MAX);
                    if step <= u64::MAX - phoff {
                        if phentsize as u64 <= u64::MAX - (phoff + step) {
                            assert(phoff + step + phentsize > raw.len());
                        } else {
                            assert(phoff + step + phentsize > raw.len());
                        }
                    } else {
                        assert(phoff + step > raw.len());
                    }
                    assert(entry_offset(phoff, phentsize, i as int) + phentsize > raw@.len());
                    lemma_parse_table_err(raw@, phoff, phentsize, (i + 1) as nat, phnum as nat, |s| parse_program_header(s));
                }
                return Err(ElfError::InvalidSectionHeader(InvalidSectionHeader::InvalidHeaderOffset));
            }
            let offset: u64 = phoff + step;
            let ph = ProgramHeader::new(slice_from(raw, offset as usize));
            match ph {
                Ok(h) => {
                    headers.push(h);
                },
                Err(e) => {
                    proof {
                        lemma_parse_table_err(raw@, phoff, phentsize, (i + 1) as nat, phnum as nat, |s| parse_program_header(s));
                    }
                    return Err(e);
                },
            }
            i = i + 1;
        }
        Ok(headers)
    }

    /// The section headers of the file `raw` whose header this is.
    pub fn section_headers(&self, raw: &[u8]) -> (r: Result<Vec<SectionHeader>, ElfError>)
        requires
            table_fits(raw@, self.shoff, self.shentsize, self.shnum, 0x40),
        ensures
            match r {
                Ok(v) => parse_table(raw@, self.shoff, self.shentsize, self.shnum as nat, |s| parse_section_header(s)) == Ok::<Seq<SectionHeader>, ElfError>(v@),
                Err(e) => parse_table(raw@, self.shoff, self.shentsize, self.shnum as nat, |s| parse_section_header(s)) == Err::<Seq<SectionHeader>, ElfError>(e),
            },
    {
        let shnum = self.shnum;
        let shoff = self.shoff;
        let shentsize = self.shentsize;
        let mut headers: Vec<SectionHeader> = Vec::new();
        let mut i: u16 = 0;
        while i < shnum
            invariant
                i <= shnum,
                shnum == self.shnum,
                shoff == self.shoff,
                shentsize == self.shentsize,
                table_fits(raw@, self.shoff, self.shentsize, self.shnum, 0x40),
                parse_table(raw@, shoff, shentsize, i as nat, |s| parse_section_header(s)) == Ok::<Seq<SectionHeader>, ElfError>(headers@),
            decreases shnum - i,
        {
            proof {
                assert(i * shentsize + shentsize <= shnum * shentsize) by (nonlinear_arith)
                    requires i < shnum;
            }
            assert(i as u64 * shentsize as u64 <= 0xffff * 0xffff) by (nonlinear_arith)
                requires
                    i <= 0xffff,
                    shentsize <= 0xffff,
            ;
            let step: u64 = i as u64 * shentsize as u64;
            let mut in_file = false;
            if step <= u64::MAX - shoff {
                let o: u64 = shoff + step;
                if shentsize as u64 <= u64::MAX - o {
                    in_file = o + shentsize as u64 <= raw.len() as u64;
                }
            }
            if !in_file {
                proof {
                    assert(entry_offset(shoff, shentsize, i as int) == shoff + step);
                    assert(raw@.len() == raw.len());
                    assert(raw.len() <= u64::MAX);
                    if step <= u64::MAX - shoff {
                        if shentsize as u64 <= u64::MAX - (shoff + step) {
                            assert(shoff + step + shentsize > raw.len());
                        } else {
                            assert(shoff + step + shentsize > raw.len());
                        }
                    } else {
                        assert(shoff + step > raw.len());
                    }
                    assert(entry_offset(shoff, shentsize, i as int) + shentsize > raw@.len());
                    lemma_parse_table_err(raw@, shoff, shentsize, (i + 1) as nat, shnum as nat, |s| parse_section_header(s));
                }
                return Err(ElfError::InvalidSectionHeader(InvalidSectionHeader::InvalidHeaderOffset));
            }
            let offset: u64 = shoff + step;
            let sh = SectionHeader::new(slice_from(raw, offset as usize));
            match sh {
                Ok(h) => {
                    headers.push(h);
                },
                Err(e) => {
                    proof {
                        lemma_parse_table_err(raw@, shoff, shentsize, (i + 1) as nat, shnum as nat, |s| parse_section_header(s));
                    }
                    return Err(e);
                },
            }
            i = i + 1;
        }
        Ok(headers)
    }

    pub fn entry_point(&self) -> (r: u64)
        ensures
            r == self.entry,
    {
        self.entry
    }
}

/// The bytes of `raw` from `start` on.
fn slice_from(raw: &[u8], start: usize) -> (r: &[u8])
    requires
        start <= raw@.len(),
    ensures
        r@ == raw@.skip(start as int),
{
    let (_, tail) = raw.split_at(start);
    assert(tail@ =~= raw@.skip(start as int));
    tail
}

/// The type of an ELF file.
pub enum ElfType {
    NoFileType,
    Rel,
    Exec,
    Dyn,
    Core,
}

impl ElfType {
    pub fn try_from(value: u16) -> (r: Result<Self, ()>)
        ensures
            r is Ok == (value <= 4),
    {
        match value {
            0 => Ok(ElfType::NoFileType),
            1 => Ok(ElfType::Rel),
            2 => Ok(ElfType::Exec),
            3 => Ok(ElfType::Dyn),
            4 => Ok(ElfType::Core),
            _ => Err(()),
        }
    }
}

/// The type of a segment.
#[derive(Debug, PartialEq, Eq, Structural, Clone, Copy)]
pub enum SegmentType {
    Null,
    Load,
    Dynamic,
    Interp,
    Note,
    Shlib,
    Phdr,
    Tls,
    /// GCC .eh_frame_hdr segment
    GnuEhFrame,
    /// Stack executability
    GnuStack,
    /// Read-only after relocation
    GnuRelro,
}

/// The segment type that `value` names.
pub open spec fn segment_type_of(value: u32) -> Option<SegmentType> {
    if value == 0 {
        Some(SegmentType::Null)
    } else if value == 1 {
        Some(SegmentType::Load)
    } else if value == 2 {
        Some(SegmentType::Dynamic)
    } else if value == 3 {
        Some(SegmentType::Interp)
    } else if value == 4 {
        Some(SegmentType::Note)
    } else if value == 5 {
        Some(SegmentType::Shlib)
    } else if value == 6 {
        Some(SegmentType::Phdr)
    } else if value == 7 {
        Some(SegmentType::Tls)
    } else if value == 0x6474e550 {
        Some(SegmentType::GnuEhFrame)
    } else if value == 0x6474e551 {
        Some(SegmentType::GnuStack)
    } else if value == 0x6474e552 {
        Some(SegmentType::GnuRelro)
    } else {
        None
    }
}

impl SegmentType {
    pub fn try_from(value: u32) -> (r: Result<Self, ElfError>)
        ensures
            match segment_type_of(value) {
                Some(t) => r == Ok::<SegmentType, ElfError>(t),
                None => r == Err::<SegmentType, ElfError>(
                    ElfError::InvalidProgramHeader(InvalidProgramHeader::InvalidSegmentType),
                ),
            },
    {
        match value {
            0 => Ok(SegmentType::Null),
            1 => Ok(SegmentType::Load),
            2 => Ok(SegmentType::Dynamic),
            3 => Ok(SegmentType::Interp),
            4 => Ok(SegmentType::Note),
            5 => Ok(SegmentType::Shlib),
            6 => Ok(SegmentType::Phdr),
            7 => Ok(SegmentType::Tls),
            0x6474e550 => Ok(SegmentType::GnuEhFrame),
            0x6474e551 => Ok(SegmentType::GnuStack),
            0x6474e552 => Ok(SegmentType::GnuRelro),
            _ => Err(ElfError::InvalidProgramHeader(InvalidProgramHeader::InvalidSegmentType)),
        }
    }
}

/// The permission flags of a segment.
#[derive(Debug, Clone, Copy, PartialEq, Eq, Structural)]
pub struct SegmentFlags {
    pub flags: u32,
}

/// How segment flags read: the letters of the set bits, read before write
/// before execute, or `NONE` when no bit is set.
pub open spec fn segment_flags_text(flags: u32) -> Seq<char> {
    let r = flags & 4 != 0;
    let w = flags & 2 != 0;
    let x = flags & 1 != 0;
    if !r && !w && !x {
        "NONE"@
    } else {
        (if r { "R"@ } else { Seq::empty() }) + (if w { "W"@ } else { Seq::empty() }) + (if x {
            "X"@
        } else {
            Seq::empty()
        })
    }
}

impl SegmentFlags {
    /// The flags, refused when a bit other than execute, write and read is set.
    pub fn new(flags: u32) -> (r: Result<Self, ElfError>)
        ensures
            flags & !7u32 != 0 ==> r == Err::<SegmentFlags, ElfError>(
                ElfError::InvalidProgramHeader(InvalidProgramHeader::UnknownSegmentFlags),
            ),
            flags & !7u32 == 0 ==> r == Ok::<SegmentFlags, ElfError>(SegmentFlags { flags }),
    {
        let known_flags: u32 = 1 | 2 | 4;
        assert(1u32 | 2u32 | 4u32 == 7u32) by (bit_vector);
        let unknown_flags = flags & !known_flags;
        if unknown_flags != 0 {
            return Err(ElfError::InvalidProgramHeader(InvalidProgramHeader::UnknownSegmentFlags));
        }
        Ok(Self { flags })
    }

    /// The flags as they stand, unchecked.
    pub fn from_bits(flags: u32) -> (r: Self)
        ensures
            r.flags == flags,
    {
        SegmentFlags { flags }
    }

    pub fn is_executable(&self) -> (r: bool)
        ensures
            r == (self.flags & 1 != 0),
    {
        (self.flags & 1) != 0
    }

    pub fn is_writable(&self) -> (r: bool)
        ensures
            r == (self.flags & 2 != 0),
    {
        (self.flags & 2) != 0
    }

    pub fn is_readable(&self) -> (r: bool)
        ensures
            r == (self.flags & 4 != 0),
    {
        (self.flags & 4) != 0
    }

    /// The flags as `R`, `W`, `X` in that order, or `NONE`.
    pub fn to_string(&self) -> (r: String)
        ensures
            r@ == segment_flags_text(self.flags),
    {
        let mut s = String::new();
        let mut first = true;
        if self.is_readable() {
            s.append("R");
            first = false;
        }
        if self.is_writable() {
            s.append("W");
            first = false;
        }
        if self.is_executable() {
            s.append("X");
            first = false;
        }
        if first {
            s.append("NONE");
        }
        s
    }
}

/// A program header: one segment of the file.
#[derive(Debug, PartialEq, Eq, Structural, Clone, Copy)]
pub struct ProgramHeader {
    /// type of segment
    pub typ: SegmentType,
    /// segment-dependent flags
    pub flags: SegmentFlags,
    /// offset of segment in file
    pub offset: u64,
    /// virtual address of segment
    pub vaddr: u64,
    /// physical address of segment
    pub paddr: u64,
    /// size of segment in file (bytes)
    pub filesz: u64,
    /// size of segment in memory (bytes)
    pub memsz: u64,
    /// alignment: a power of two, or 0 for none
    pub align: u64,
}

/// The program header at the start of `raw`.
pub open spec fn parse_program_header(raw: Seq<u8>) -> Result<ProgramHeader, ElfError> {
    match segment_type_of(le_u32(raw, 0)) {
        None => Err(ElfError::InvalidProgramHeader(InvalidProgramHeader::InvalidSegmentType)),
        Some(typ) => {
            let align = le_u64(raw, 0x30);
            if align != 0 && align & ((align - 1) as u64) != 0 {
                Err(ElfError::InvalidProgramHeader(InvalidProgramHeader::InvalidAlignment))
            } else {
                Ok(
                    ProgramHeader {
                        typ,
                        flags: SegmentFlags { flags: le_u32(raw, 4) },
                        offset: le_u64(raw, 0x8),
                        vaddr: le_u64(raw, 0x10),
                        paddr: le_u64(raw, 0x18),
                        filesz: le_u64(raw, 0x20),
                        memsz: le_u64(raw, 0x28),
                        align,
                    },
                )
            }
        },
    }
}

/// The number held by the eight bytes of `s` at `off`, least significant
/// byte first.
pub open spec fn little_endian_at(s: Seq<u8>, off: int) -> int {
    s[off] + 0x100 * s[off + 1] + 0x1_0000 * s[off + 2] + 0x100_0000 * s[off + 3] + 0x1_0000_0000 * s[off + 4]
        + 0x100_0000_0000 * s[off + 5] + 0x1_0000_0000_0000 * s[off + 6] + 0x100_0000_0000_0000 * s[off + 7]
}

/// `le_u64` reads the eight bytes least significant first.
proof fn lemma_le_u64_value(s: Seq<u8>, off: int)
    ensures
        le_u64(s, off) == little_endian_at(s, off),
{
    let b0 = s[off];
    let b1 = s[off + 1];
    let b2 = s[off + 2];
    let b3 = s[off + 3];
    let b4 = s[off + 4];
    let b5 = s[off + 5];
    let b6 = s[off + 6];
    let b7 = s[off + 7];
    assert((b0 as u64) | ((b1 as u64) << 8u64) | ((b2 as u64) << 16u64) | ((b3 as u64) << 24u64) | ((b4 as u64)
        << 32u64) | ((b5 as u64) << 40u64) | ((b6 as u64) << 48u64) | ((b7 as u64) << 56u64) == b0 + 0x100 * b1
        + 0x1_0000 * b2 + 0x100_0000 * b3 + 0x1_0000_0000 * b4 + 0x100_0000_0000 * b5 + 0x1_0000_0000_0000 * b6
        + 0x100_0000_0000_0000 * b7) by (bit_vector);
}

/// The number held by the two bytes of `s` at `off`, low byte first.
pub open spec fn little_endian2_at(s: Seq<u8>, off: int) -> int {
    s[off] + 0x100 * s[off + 1]
}

/// The number held by the four bytes of `s` at `off`, least significant
/// byte first.
pub open spec fn little_endian4_at(s: Seq<u8>, off: int) -> int {
    s[off] + 0x100 * s[off + 1] + 0x1_0000 * s[off + 2] + 0x100_0000 * s[off + 3]
}

proof fn lemma_le_u16_value(s: Seq<u8>, off: int)
    ensures
        le_u16(s, off) == little_endian2_at(s, off),
{
    let b0 = s[off];
    let b1 = s[off + 1];
    assert((b0 as u16) | ((b1 as u16) << 8u16) == b0 + 0x100 * b1) by (bit_vector);
}

proof fn lemma_le_u32_value(s: Seq<u8>, off: int)
    ensures
        le_u32(s, off) == little_endian4_at(s, off),
{
    let b0 = s[off];
    let b1 = s[off + 1];
    let b2 = s[off + 2];
    let b3 = s[off + 3];
    assert((b0 as u32) | ((b1 as u32) << 8u32) | ((b2 as u32) << 16u32) | ((b3 as u32) << 24u32) == b0 + 0x100 * b1
        + 0x1_0000 * b2 + 0x100_0000 * b3) by (bit_vector);
}

/// The fields of an ELF64 file header as they stand in `raw`: the entry
/// point at bytes 24..32, the program header table's offset at 32..40 and
/// the section header table's at 40..48, each least significant byte
/// first; then, two bytes each, the program header entry size at 54, their
/// number at 56, the section header entry size at 58, their number at 60
/// and the index of the section names at 62.
pub proof fn lemma_header_layout(raw: Seq<u8>)
    requires
        raw.len() >= 0x40,
    ensures
        ({
            let h = header_fields(raw);
            &&& h.entry == little_endian_at(raw, 0x18)
            &&& h.phoff == little_endian_at(raw, 0x20)
            &&& h.shoff == little_endian_at(raw, 0x28)
            &&& h.phentsize == little_endian2_at(raw, 0x36)
            &&& h.phnum == little_endian2_at(raw, 0x38)
            &&& h.shentsize == little_endian2_at(raw, 0x3a)
            &&& h.shnum == little_endian2_at(raw, 0x3c)
            &&& h.shstrndx == little_endian2_at(raw, 0x3e)
        }),
{
    lemma_le_u64_value(raw, 0x18);
    lemma_le_u64_value(raw, 0x20);
    lemma_le_u64_value(raw, 0x28);
    lemma_le_u16_value(raw, 0x36);
    lemma_le_u16_value(raw, 0x38);
    lemma_le_u16_value(raw, 0x3a);
    lemma_le_u16_value(raw, 0x3c);
    lemma_le_u16_value(raw, 0x3e);
}

/// A program header read from `raw` holds the fields of the ELF64 layout:
/// the offset in the file at bytes 8..16, the virtual address at 16..24,
/// the physical address at 24..32, the size in the file at 32..40, the size
/// in memory at 40..48 and the alignment at 48..56, each least significant
/// byte first; the flags are bytes 4..8 and the type is the one numbered by
/// bytes 0..4.
pub proof fn lemma_program_header_layout(raw: Seq<u8>)
    requires
        raw.len() >= 0x38,
        parse_program_header(raw) is Ok,
    ensures
        ({
            let h = parse_program_header(raw)->Ok_0;
            &&& h.offset == little_endian_at(raw, 0x8)
            &&& h.vaddr == little_endian_at(raw, 0x10)
            &&& h.paddr == little_endian_at(raw, 0x18)
            &&& h.filesz == little_endian_at(raw, 0x20)
            &&& h.memsz == little_endian_at(raw, 0x28)
            &&& h.align == little_endian_at(raw, 0x30)
            &&& h.flags.flags == little_endian4_at(raw, 4)
            &&& segment_type_of(le_u32(raw, 0)) == Some(h.typ)
        }),
{
    lemma_le_u32_value(raw, 4);
    lemma_le_u64_value(raw, 0x8);
    lemma_le_u64_value(raw, 0x10);
    lemma_le_u64_value(raw, 0x18);
    lemma_le_u64_value(raw, 0x20);
    lemma_le_u64_value(raw, 0x28);
    lemma_le_u64_value(raw, 0x30);
}

impl ProgramHeader {
    /// Parses the program header at the start of `raw`; the flags are taken as they stand.
    pub fn new(raw: &[u8]) -> (r: Result<Self, ElfError>)
        requires
            raw@.len() >= 0x38,
        ensures
            r == parse_program_header(raw@),
            r matches Ok(h) ==> {
                &&& h.offset == little_endian_at(raw@, 0x8)
                &&& h.vaddr == little_endian_at(raw@, 0x10)
                &&& h.paddr == little_endian_at(raw@, 0x18)
                &&& h.filesz == little_endian_at(raw@, 0x20)
                &&& h.memsz == little_endian_at(raw@, 0x28)
                &&& h.align == little_endian_at(raw@, 0x30)
                &&& h.flags.flags == little_endian4_at(raw@, 4)
            },
    {
        proof {
            if parse_program_header(raw@) is Ok {
                lemma_program_header_layout(raw@);
            }
        }
        let p_type = SegmentType::try_from(read_u32(raw, 0x0));
        let p_type = match p_type {
            Ok(t) => t,
            Err(e) => {
                return Err(e);
            },
        };
        let p_flags = SegmentFlags::from_bits(read_u32(raw, 0x4));
        let p_offset = read_u64(raw, 0x8);
        let p_vaddr = read_u64(raw, 0x10);
        let p_paddr = read_u64(raw, 0x18);
        let p_filesz = read_u64(raw, 0x20);
        let p_memsz = read_u64(raw, 0x28);
        let p_align = read_u64(raw, 0x30);
        if p_align != 0 && p_align & (p_align - 1) != 0 {
            return Err(ElfError::InvalidProgramHeader(InvalidProgramHeader::InvalidAlignment));
        }
        Ok(Self {
            typ: p_type,
            flags: p_flags,
            offset: p_offset,
            vaddr: p_vaddr,
            paddr: p_paddr,
            filesz: p_filesz,
            memsz: p_memsz,
            align: p_align,
        })
    }

    pub fn is_loadable(&self) -> (r: bool)
        ensures
            r == (self.typ == SegmentType::Load),
    {
        self.typ == SegmentType::Load
    }

    pub fn is_tls(&self) -> (r: bool)
        ensures
            r == (self.typ == SegmentType::Tls),
    {
        self.typ == SegmentType::Tls
    }

    pub fn virtual_addr(&self) -> (r: u64)
        ensures
            r == self.vaddr,
    {
        self.vaddr
    }

    pub fn mem_size(&self) -> (r: u64)
        ensures
            r == self.memsz,
    {
        self.memsz
    }

    pub fn flags(&self) -> (r: SegmentFlags)
        ensures
            r == self.flags,
    {
        self.flags
    }

    pub fn offset(&self) -> (r: u64)
        ensures
            r == self.offset,
    {
        self.offset
    }

    pub fn file_size(&self) -> (r: u64)
        ensures
            r == self.filesz,
    {
        self.filesz
    }
}

/// The type of a section.
#[derive(Debug, PartialEq, Eq, Structural, Clone, Copy)]
pub enum SectionHeaderType {
    /// Unused section header
    Null,
    /// Program data
    Progbits,
    /// Symbol table
    Symtab,
    /// String table
    Strtab,
    /// Relocation entries with addends
    Rela,
    /// Symbol hash table
    ShtHash,
    /// Dynamic linking information
    Dynamic,
    /// Notes
    Note,
    /// Program space with no data (bss)
    Nobits,
    /// Relocation entries without addends
    Rel,
    /// Reserved
    Shlib,
    /// Dynamic linking symbol table
    Dynsym,
    /// Array of constructors
    InitArray,
    /// Array of destructors
    FiniArray,
    /// Array of pre-constructors
    PreinitArray,
    /// Section group
    Group,
    /// Extended section indices
    SymtabShndx,
    GnuHash,
    /// Number of defined types
    Num,
}

/// The section type that `value` names.
pub open spec fn section_type_of(value: u32) -> Option<SectionHeaderType> {
    if value == 0 {
        Some(SectionHeaderType::Null)
    } else if value == 1 {
        Some(SectionHeaderType::Progbits)
    } else if value == 2 {
        Some(SectionHeaderType::Symtab)
    } else if value == 3 {
        Some(SectionHeaderType::Strtab)
    } else if value == 4 {
        Some(SectionHeaderType::Rela)
    } else if value == 5 {
        Some(SectionHeaderType::ShtHash)
    } else if value == 6 {
        Some(SectionHeaderType::Dynamic)
    } else if value == 7 {
        Some(SectionHeaderType::Note)
    } else if value == 8 {
        Some(SectionHeaderType::Nobits)
    } else if value == 9 {
        Some(SectionHeaderType::Rel)
    } else if value == 10 {
        Some(SectionHeaderType::Shlib)
    } else if value == 11 {
        Some(SectionHeaderType::Dynsym)
    } else if value == 14 {
        Some(SectionHeaderType::InitArray)
    } else if value == 15 {
        Some(SectionHeaderType::FiniArray)
    } else if value == 16 {
        Some(SectionHeaderType::PreinitArray)
    } else if value == 17 {
        Some(SectionHeaderType::Group)
    } else if value == 18 {
        Some(SectionHeaderType::SymtabShndx)
    } else if value == 0x6ffffff6 {
        Some(SectionHeaderType::GnuHash)
    } else {
        None
    }
}

impl SectionHeaderType {
    pub fn try_from(value: u32) -> (r: Result<Self, ElfError>)
        ensures
            match section_type_of(value) {
                Some(t) => r == Ok::<SectionHeaderType, ElfError>(t),
                None => r == Err::<SectionHeaderType, ElfError>(
                    ElfError::InvalidSectionHeader(InvalidSectionHeader::InvalidHeaderType),
                ),
            },
    {
        match value {
            0 => Ok(Self::Null),
            1 => Ok(Self::Progbits),
            2 => Ok(Self::Symtab),
            3 => Ok(Self::Strtab),
            4 => Ok(Self::Rela),
            5 => Ok(Self::ShtHash),
            6 => Ok(Self::Dynamic),
            7 => Ok(Self::Note),
            8 => Ok(Self::Nobits),
            9 => Ok(Self::Rel),
            10 => Ok(Self::Shlib),
            11 => Ok(Self::Dynsym),
            14 => Ok(Self::InitArray),
            15 => Ok(Self::FiniArray),
            16 => Ok(Self::PreinitArray),
            17 => Ok(Self::Group),
            18 => Ok(Self::SymtabShndx),
            0x6ffffff6 => Ok(Self::GnuHash),
            _ => Err(ElfError::InvalidSectionHeader(InvalidSectionHeader::InvalidHeaderType)),
        }
    }
}

/// Every bit that has a meaning as a section flag.
pub const KNOWN_SECTION_FLAGS: u64 = 0x1 | 0x2 | 0x4 | 0x10 | 0x20 | 0x40 | 0x80 | 0x100 | 0x200 | 0x400;

/// The attribute flags of a section.
#[derive(Debug, Clone, Copy, PartialEq, Eq, Structural)]
pub struct SectionFlags {
    pub flags: u64,
}

impl SectionFlags {
    /// The flags, refused when an unknown bit is set.
    pub fn new(flags: u64) -> (r: Result<Self, ElfError>)
        ensures
            flags & !KNOWN_SECTION_FLAGS != 0 ==> r == Err::<SectionFlags, ElfError>(
                ElfError::InvalidSectionHeader(InvalidSectionHeader::InvalidSectionFlags),
            ),
            flags & !KNOWN_SECTION_FLAGS == 0 ==> r == Ok::<SectionFlags, ElfError>(
                SectionFlags { flags },
            ),
    {
        let unknown_flags = flags & !KNOWN_SECTION_FLAGS;
        if unknown_flags != 0 {
            return Err(ElfError::InvalidSectionHeader(InvalidSectionHeader::InvalidSectionFlags));
        }
        Ok(Self { flags })
    }

    /// The flags as they stand, unchecked.
    pub fn from_bits(flags: u64) -> (r: Self)
        ensures
            r.flags == flags,
    {
        SectionFlags { flags }
    }
}

/// A section header.
#[derive(Debug, PartialEq, Eq, Structural, Clone, Copy)]
pub struct SectionHeader {
    /// Offset of the section's name in the section header string table.
    pub name_off: u32,
    /// What the section holds.
    pub typ: SectionHeaderType,
    /// Attributes of the section.
    pub flags: SectionFlags,
    /// Virtual address of the section in memory, or 0.
    pub vaddr: u64,
    /// Offset of the section in the file.
    pub offset: u64,
    /// Size of the section in bytes.
    pub size: u64,
    /// Index of an associated section.
    pub link: u32,
    /// Extra information, depending on the type.
    pub info: u32,
    /// Required alignment.
    pub addr_align: u64,
    /// Size of each entry, for sections of fixed-size entries, else 0.
    pub entsize: u64,
}

/// The section header at the start of `raw`.
pub open spec fn parse_section_header(raw: Seq<u8>) -> Result<SectionHeader, ElfError> {
    match section_type_of(le_u32(raw, 4)) {
        None => Err(ElfError::InvalidSectionHeader(InvalidSectionHeader::InvalidHeaderType)),
        Some(typ) => Ok(
            SectionHeader {
                name_off: le_u32(raw, 0),
                typ,
                flags: SectionFlags { flags: le_u64(raw, 0x8) },
                vaddr: le_u64(raw, 0x10),
                offset: le_u64(raw, 0x18),
                size: le_u64(raw, 0x20),
                link: le_u32(raw, 0x28),
                info: le_u32(raw, 0x2c),
                addr_align: le_u64(raw, 0x30),
                entsize: le_u64(raw, 0x38),
            },
        ),
    }
}

/// A section header read from `raw` holds the fields of the ELF64 layout:
/// four bytes each for the name's offset at 0, the link at 40 and the info
/// at 44; eight bytes each for the flags at 8, the address at 16, the
/// offset in the file at 24, the size at 32, the alignment at 48 and the
/// entry size at 56, least significant byte first; the type is the one
/// numbered by bytes 4..8.
pub proof fn lemma_section_header_layout(raw: Seq<u8>)
    requires
        raw.len() >= 0x40,
        parse_section_header(raw) is Ok,
    ensures
        ({
            let h = parse_section_header(raw)->Ok_0;
            &&& h.name_off == little_endian4_at(raw, 0)
            &&& h.flags.flags == little_endian_at(raw, 0x8)
            &&& h.vaddr == little_endian_at(raw, 0x10)
            &&& h.offset == little_endian_at(raw, 0x18)
            &&& h.size == little_endian_at(raw, 0x20)
            &&& h.link == little_endian4_at(raw, 0x28)
            &&& h.info == little_endian4_at(raw, 0x2c)
            &&& h.addr_align == little_endian_at(raw, 0x30)
            &&& h.entsize == little_endian_at(raw, 0x38)
            &&& section_type_of(le_u32(raw, 4)) == Some(h.typ)
        }),
{
    lemma_le_u32_value(raw, 0);
    lemma_le_u64_value(raw, 0x8);
    lemma_le_u64_value(raw, 0x10);
    lemma_le_u64_value(raw, 0x18);
    lemma_le_u64_value(raw, 0x20);
    lemma_le_u32_value(raw, 0x28);
    lemma_le_u32_value(raw, 0x2c);
    lemma_le_u64_value(raw, 0x30);
    lemma_le_u64_value(raw, 0x38);
}

impl SectionHeader {
    /// Parses the section header at the start of `raw`; the flags are taken as they stand.
    pub fn new(raw: &[u8]) -> (r: Result<Self, ElfError>)
        requires
            raw@.len() >= 0x40,
        ensures
            r == parse_section_header(raw@),
            r matches Ok(h) ==> {
                &&& h.name_off == little_endian4_at(raw@, 0)
                &&& h.offset == little_endian_at(raw@, 0x18)
                &&& h.size == little_endian_at(raw@, 0x20)
                &&& h.link == little_endian4_at(raw@, 0x28)
                &&& h.info == little_endian4_at(raw@, 0x2c)
                &&& h.entsize == little_endian_at(raw@, 0x38)
            },
    {
        proof {
            if parse_section_header(raw@) is Ok {
                lemma_section_header_layout(raw@);
            }
        }
        let sh_name = read_u32(raw, 0x0);
        let sh_type = match SectionHeaderType::try_from(read_u32(raw, 0x4)) {
            Ok(t) => t,
            Err(e) => {
                return Err(e);
            },
        };
        let sh_flags = SectionFlags::from_bits(read_u64(raw, 0x8));
        let sh_addr = read_u64(raw, 0x10);
        let sh_offset = read_u64(raw, 0x18);
        let sh_size = read_u64(raw, 0x20);
        let sh_link = read_u32(raw, 0x28);
        let sh_info = read_u32(raw, 0x2c);
        let sh_addralign = read_u64(raw, 0x30);
        let sh_entsize = read_u64(raw, 0x38);
        Ok(Self {
            name_off: sh_name,
            typ: sh_type,
            flags: sh_flags,
            vaddr: sh_addr,
            offset: sh_offset,
            size: sh_size,
            link: sh_link,
            info: sh_info,
            addr_align: sh_addralign,
            entsize: sh_entsize,
        })
    }

    /// Whether the section holds relocation entries, with or without addends.
    pub fn contains_relocation_entries(&self) -> (r: bool)
        ensures
            r == (self.typ == SectionHeaderType::Rel || self.typ == SectionHeaderType::Rela),
    {
        self.typ == SectionHeaderType::Rel || self.typ == SectionHeaderType::Rela
    }
}

/// The type of a relocation.
#[derive(Debug, PartialEq, Eq, Structural, Clone, Copy)]
pub enum RelocationType {
    Amd64None,
    Amd6464,
    Amd64Pc32,
    Amd64Got32,
    Amd64Plt32,
    Amd64Copy,
    Amd64GlobDat,
    Amd64JumpSlot,
    /// base + addend
    Amd64Relative,
    Amd64GotPcrel,
    Amd64TlsGd,
    Amd64TlsLd,
    Amd64DtpOff32,
    Amd64GotTpOff,
    Amd64TpOff64,
    Amd64Size32,
    Amd64Size64,
}

/// The relocation type that `value` names.
pub open spec fn relocation_type_of(value: u32) -> Option<RelocationType> {
    if value == 0 {
        Some(RelocationType::Amd64None)
    } else if value == 1 {
        Some(RelocationType::Amd6464)
    } else if value == 2 {
        Some(RelocationType::Amd64Pc32)
    } else if value == 3 {
        Some(RelocationType::Amd64Got32)
    } else if value == 4 {
        Some(RelocationType::Amd64Plt32)
    } else if value == 5 {
        Some(RelocationType::Amd64Copy)
    } else if value == 6 {
        Some(RelocationType::Amd64GlobDat)
    } else if value == 7 {
        Some(RelocationType::Amd64JumpSlot)
    } else if value == 8 {
        Some(RelocationType::Amd64Relative)
    } else if value == 9 {
        Some(RelocationType::Amd64GotPcrel)
    } else if value == 10 {
        Some(RelocationType::Amd64TlsGd)
    } else if value == 11 {
        Some(RelocationType::Amd64TlsLd)
    } else if value == 12 {
        Some(RelocationType::Amd64DtpOff32)
    } else if value == 13 {
        Some(RelocationType::Amd64GotTpOff)
    } else if value == 14 {
        Some(RelocationType::Amd64TpOff64)
    } else if value == 15 {
        Some(RelocationType::Amd64Size32)
    } else if value == 16 {
        Some(RelocationType::Amd64Size64)
    } else {
        None
    }
}

impl RelocationType {
    pub fn try_from(value: u32) -> (r: Result<Self, ElfError>)
        ensures
            match relocation_type_of(value) {
                Some(t) => r == Ok::<RelocationType, ElfError>(t),
                None => r == Err::<RelocationType, ElfError>(
                    ElfError::InvalidRelocationType(InvalidRelocationType::InvalidType),
                ),
            },
    {
        match value {
            0 => Ok(RelocationType::Amd64None),
            1 => Ok(RelocationType::Amd6464),
            2 => Ok(RelocationType::Amd64Pc32),
            3 => Ok(RelocationType::Amd64Got32),
            4 => Ok(RelocationType::Amd64Plt32),
            5 => Ok(RelocationType::Amd64Copy),
            6 => Ok(RelocationType::Amd64GlobDat),
            7 => Ok(RelocationType::Amd64JumpSlot),
            8 => Ok(RelocationType::Amd64Relative),
            9 => Ok(RelocationType::Amd64GotPcrel),
            10 => Ok(RelocationType::Amd64TlsGd),
            11 => Ok(RelocationType::Amd64TlsLd),
            12 => Ok(RelocationType::Amd64DtpOff32),
            13 => Ok(RelocationType::Amd64GotTpOff),
            14 => Ok(RelocationType::Amd64TpOff64),
            15 => Ok(RelocationType::Amd64Size32),
            16 => Ok(RelocationType::Amd64Size64),
            _ => Err(ElfError::InvalidRelocationType(InvalidRelocationType::InvalidType)),
        }
    }
}

/// A relocation entry: `Rel` without an addend, `Rela` with one.
#[derive(Debug, PartialEq, Eq, Structural, Clone, Copy)]
pub struct RelocationEntry {
    pub rtype: RelocationType,
    pub offset: u64,
    pub symbol_tbl_idx: u32,
    pub addend: Option<u64>,
}

/// The relocation entry at the start of `raw`; with an addend for `Rela` entries.
pub open spec fn parse_relocation(raw: Seq<u8>, with_addend: bool) -> Result<RelocationEntry, ElfError> {
    let info = le_u64(raw, 0x8);
    match relocation_type_of((info & 0xffffffff) as u32) {
        None => Err(ElfError::InvalidRelocationType(InvalidRelocationType::InvalidType)),
        Some(t) => Ok(
            RelocationEntry {
                offset: le_u64(raw, 0),
                rtype: t,
                symbol_tbl_idx: (info >> 32u64) as u32,
                addend: if with_addend { Some(le_u64(raw, 0x10)) } else { None },
            },
        ),
    }
}

/// A relocation entry read from `raw` holds the fields of the ELF64
/// layout: the offset at bytes 0..8; the type numbered by bytes 8..12 and
/// the symbol's index at 12..16; and, for an entry with an addend, the
/// addend at 16..24; each least significant byte first.
pub proof fn lemma_relocation_layout(raw: Seq<u8>, with_addend: bool)
    requires
        raw.len() >= (if with_addend { 0x18int } else { 0x10int }),
        parse_relocation(raw, with_addend) is Ok,
    ensures
        ({
            let e = parse_relocation(raw, with_addend)->Ok_0;
            &&& e.offset == little_endian_at(raw, 0)
            &&& e.symbol_tbl_idx == little_endian4_at(raw, 0xc)
            &&& relocation_type_of(little_endian4_at(raw, 8) as u32) == Some(e.rtype)
            &&& with_addend ==> e.addend == Some(little_endian_at(raw, 0x10) as u64)
            &&& !with_addend ==> e.addend is None
        }),
{
    lemma_le_u64_value(raw, 0);
    lemma_le_u64_value(raw, 0x8);
    lemma_le_u64_value(raw, 0x10);
    let info = le_u64(raw, 0x8);
    assert(info >> 32u64 == info / 0x1_0000_0000 && info & 0xffffffff == info % 0x1_0000_0000) by (bit_vector);
    assert(little_endian_at(raw, 8) == little_endian4_at(raw, 8) + 0x1_0000_0000 * little_endian4_at(raw, 0xc));
}

impl RelocationEntry {
    /// Parses a relocation entry without an addend.
    pub fn new(raw: &[u8]) -> (r: Result<Self, ElfError>)
        requires
            raw@.len() >= 0x10,
        ensures
            r == parse_relocation(raw@, false),
            r matches Ok(e) ==> e.offset == little_endian_at(raw@, 0) && e.symbol_tbl_idx == little_endian4_at(raw@, 0xc)
                && e.addend is None,
    {
        proof {
            if parse_relocation(raw@, false) is Ok {
                lemma_relocation_layout(raw@, false);
            }
        }
        let r_offset = read_u64(raw, 0x0);
        let r_info = read_u64(raw, 0x8);
        let rtype = match RelocationType::try_from((r_info & 0xffffffff) as u32) {
            Ok(t) => t,
            Err(e) => {
                return Err(e);
            },
        };
        Ok(RelocationEntry {
            offset: r_offset,
            rtype,
            symbol_tbl_idx: (r_info >> 32) as u32,
            addend: None,
        })
    }

    /// Parses a relocation entry with an addend.
    pub fn new_rela(raw: &[u8]) -> (r: Result<Self, ElfError>)
        requires
            raw@.len() >= 0x18,
        ensures
            r == parse_relocation(raw@, true),
            r matches Ok(e) ==> e.offset == little_endian_at(raw@, 0) && e.symbol_tbl_idx == little_endian4_at(raw@, 0xc)
                && e.addend == Some(little_endian_at(raw@, 0x10) as u64),
    {
        proof {
            if parse_relocation(raw@, true) is Ok {
                lemma_relocation_layout(raw@, true);
            }
        }
        let r_offset = read_u64(raw, 0x0);
        let r_info = read_u64(raw, 0x8);
        let r_addend = read_u64(raw, 0x10);
        let rtype = match RelocationType::try_from((r_info & 0xffffffff) as u32) {
            Ok(t) => t,
            Err(e) => {
                return Err(e);
            },
        };
        Ok(RelocationEntry {
            offset: r_offset,
            rtype,
            symbol_tbl_idx: (r_info >> 32) as u32,
            addend: Some(r_addend),
        })
    }
}

/// The first `j` relocation entries of the relocation section `sh`.
pub open spec fn section_relocations(raw: Seq<u8>, sh: SectionHeader, j: nat) -> Result<
    Seq<RelocationEntry>,
    ElfError,
>
    decreases j,
{
    if j == 0 {
        Ok(Seq::empty())
    } else {
        match section_relocations(raw, sh, (j - 1) as nat) {
            Err(e) => Err(e),
            Ok(s) => match parse_relocation(
                raw.skip(sh.offset + (j - 1) * sh.entsize),
                sh.typ == SectionHeaderType::Rela,
            ) {
                Err(e) => Err(e),
                Ok(rel) => Ok(s.push(rel)),
            },
        }
    }
}

/// The relocation entries of the relocation sections among the first `k` of `shs`, in order.
pub open spec fn relocations_upto(raw: Seq<u8>, shs: Seq<SectionHeader>, k: nat) -> Result<
    Seq<RelocationEntry>,
    ElfError,
>
    decreases k,
{
    if k == 0 {
        Ok(Seq::empty())
    } else {
        match relocations_upto(raw, shs, (k - 1) as nat) {
            Err(e) => Err(e),
            Ok(s) => {
                let sh = shs[k - 1];
                if !(sh.typ == SectionHeaderType::Rel || sh.typ == SectionHeaderType::Rela) {
                    Ok(s)
                } else {
                    match section_relocations(raw, sh, (sh.size / sh.entsize) as nat) {
                        Err(e) => Err(e),
                        Ok(t) => Ok(s + t),
                    }
                }
            },
        }
    }
}

/// `e` is entry `i` of section `j` of `shs`, a section of relocation
/// entries (`Rel`, or `Rela` with addends): the entry read at the section's
/// offset plus `i` entry sizes, with an addend exactly for a `Rela` section.
pub open spec fn relocation_from_section(raw: Seq<u8>, shs: Seq<SectionHeader>, j: int, i: int, e: RelocationEntry) -> bool {
    &&& 0 <= j < shs.len()
    &&& shs[j].typ == SectionHeaderType::Rel || shs[j].typ == SectionHeaderType::Rela
    &&& 0 <= i < shs[j].size / shs[j].entsize
    &&& parse_relocation(raw.skip(shs[j].offset + i * shs[j].entsize), shs[j].typ == SectionHeaderType::Rela) == Ok::<
        RelocationEntry,
        ElfError,
    >(e)
    &&& (e.addend is Some) == (shs[j].typ == SectionHeaderType::Rela)
}

proof fn lemma_section_relocations_from(raw: Seq<u8>, shs: Seq<SectionHeader>, j: int, n: nat)
    requires
        0 <= j < shs.len(),
        shs[j].typ == SectionHeaderType::Rel || shs[j].typ == SectionHeaderType::Rela,
        n <= shs[j].size / shs[j].entsize,
    ensures
        section_relocations(raw, shs[j], n) matches Ok(t) ==> t.len() == n && forall|i: int|
            0 <= i < n ==> relocation_from_section(raw, shs, j, i, #[trigger] t[i]),
    decreases n,
{
    if n > 0 {
        lemma_section_relocations_from(raw, shs, j, (n - 1) as nat);
    }
}

/// Every entry of `s` is an entry of one of the first `k` relocation
/// sections of `shs`.
pub open spec fn from_relocation_sections(raw: Seq<u8>, shs: Seq<SectionHeader>, k: int, s: Seq<RelocationEntry>) -> bool {
    forall|x: int| 0 <= x < s.len() ==> #[trigger] entry_of_relocation_sections(raw, shs, k, s[x])
}

/// `e` is an entry of one of the first `k` relocation sections of `shs`.
pub open spec fn entry_of_relocation_sections(raw: Seq<u8>, shs: Seq<SectionHeader>, k: int, e: RelocationEntry) -> bool {
    exists|j: int, i: int| 0 <= j < k && #[trigger] relocation_from_section(raw, shs, j, i, e)
}

/// `load` relocates only entries of relocation sections: each entry of
/// `relocations_upto(raw, shs, k)` is an entry of one of the first `k`
/// sections whose type is `Rel` or `Rela`, read at its place in that
/// section, with an addend exactly when the section is `Rela`; sections of
/// any other type give none.
pub proof fn lemma_relocations_from_relocation_sections(raw: Seq<u8>, shs: Seq<SectionHeader>, k: nat)
    requires
        k <= shs.len(),
    ensures
        relocations_upto(raw, shs, k) matches Ok(s) ==> from_relocation_sections(raw, shs, k as int, s),
    decreases k,
{
    if k > 0 {
        let k1 = (k - 1) as nat;
        lemma_relocations_from_relocation_sections(raw, shs, k1);
        match relocations_upto(raw, shs, k1) {
            Err(_) => {},
            Ok(s) => {
                let sh = shs[k - 1];
                if sh.typ == SectionHeaderType::Rel || sh.typ == SectionHeaderType::Rela {
                    let n = (sh.size / sh.entsize) as nat;
                    lemma_section_relocations_from(raw, shs, k - 1, n);
                    match section_relocations(raw, sh, n) {
                        Err(_) => {},
                        Ok(t) => {
                            lemma_append_from_sections(raw, shs, k - 1, s, t);
                        },
                    }
                } else {
                    lemma_widen_from_sections(raw, shs, k - 1, s);
                }
            },
        }
    }
}

proof fn lemma_widen_from_sections(raw: Seq<u8>, shs: Seq<SectionHeader>, k: int, s: Seq<RelocationEntry>)
    requires
        from_relocation_sections(raw, shs, k, s),
    ensures
        from_relocation_sections(raw, shs, k + 1, s),
{
    assert forall|x: int| 0 <= x < s.len() implies #[trigger] entry_of_relocation_sections(raw, shs, k + 1, s[x]) by {
        assert(entry_of_relocation_sections(raw, shs, k, s[x]));
        let (j, i) = choose|j: int, i: int| 0 <= j < k && #[trigger] relocation_from_section(raw, shs, j, i, s[x]);
        assert(relocation_from_section(raw, shs, j, i, s[x]));
    }
}

proof fn lemma_append_from_sections(
    raw: Seq<u8>,
    shs: Seq<SectionHeader>,
    k: int,
    s: Seq<RelocationEntry>,
    t: Seq<RelocationEntry>,
)
    requires
        from_relocation_sections(raw, shs, k, s),
        forall|i: int| 0 <= i < t.len() ==> relocation_from_section(raw, shs, k, i, #[trigger] t[i]),
    ensures
        from_relocation_sections(raw, shs, k + 1, s + t),
{
    let all = s + t;
    assert forall|x: int| 0 <= x < all.len() implies #[trigger] entry_of_relocation_sections(raw, shs, k + 1, all[x]) by {
        if x < s.len() {
            assert(all[x] == s[x]);
            assert(entry_of_relocation_sections(raw, shs, k, s[x]));
            let (j, i) = choose|j: int, i: int| 0 <= j < k && #[trigger] relocation_from_section(raw, shs, j, i, s[x]);
            assert(relocation_from_section(raw, shs, j, i, all[x]));
        } else {
            assert(all[x] == t[x - s.len()]);
            assert(relocation_from_section(raw, shs, k, x - s.len(), all[x]));
        }
    }
}

/// Every entry of every relocation section lies within `raw`, with room for the entry.
pub open spec fn relocations_fit(raw: Seq<u8>, shs: Seq<SectionHeader>) -> bool {
    forall|k: int|
        0 <= k < shs.len() && (shs[k].typ == SectionHeaderType::Rel || shs[k].typ
            == SectionHeaderType::Rela) ==> {
            &&& #[trigger] shs[k].entsize > 0
            &&& forall|i: int| 0 <= i < shs[k].size / shs[k].entsize ==> #[trigger] entry_fits(raw, shs[k], i)
        }
}

/// The `i`-th relocation entry of `sh` lies within `raw`.
pub open spec fn entry_fits(raw: Seq<u8>, sh: SectionHeader, i: int) -> bool {
    sh.offset + i * sh.entsize + (if sh.typ == SectionHeaderType::Rela {
        0x18int
    } else {
        0x10int
    }) <= raw.len()
}

/// The parse of the section header table of `raw` with header `h`.
pub open spec fn sections_of(raw: Seq<u8>, h: ElfHeader) -> Result<Seq<SectionHeader>, ElfError> {
    parse_table(raw, h.shoff, h.shentsize, h.shnum as nat, |s| parse_section_header(s))
}

/// The parse of the program header table of `raw` with header `h`.
pub open spec fn programs_of(raw: Seq<u8>, h: ElfHeader) -> Result<Seq<ProgramHeader>, ElfError> {
    parse_table(raw, h.phoff, h.phentsize, h.phnum as nat, |s| parse_program_header(s))
}

/// The relocation entries of the file `raw` with header `h`.
pub open spec fn relocations_of(raw: Seq<u8>, h: ElfHeader) -> Result<Seq<RelocationEntry>, ElfError> {
    match sections_of(raw, h) {
        Err(e) => Err(e),
        Ok(shs) => relocations_upto(raw, shs, shs.len()),
    }
}

/// An ELF file held in memory with its parsed header.
pub struct ElfBinary<'a> {
    raw: &'a [u8],
    header: ElfHeader,
}

impl<'a> ElfBinary<'a> {
    pub closed spec fn bytes(&self) -> Seq<u8> {
        self.raw@
    }

    pub closed spec fn header(&self) -> ElfHeader {
        self.header
    }

    /// The file `raw`, whose header must be valid.
    pub fn new(raw: &'a [u8]) -> (r: Result<Self, ElfError>)
        requires
            raw@.len() >= 0x40,
            parse_header(raw@) is Ok,
        ensures
            r is Ok,
            r->Ok_0.bytes() == raw@,
            r->Ok_0.header() == header_fields(raw@),
    {
        let header = match ElfHeader::new(raw) {
            Ok(h) => h,
            Err(_) => {
                return Err(ElfError::Other);
            },
        };
        Ok(Self { raw, header })
    }

    pub fn entry_point(&self) -> (r: u64)
        ensures
            r == self.header().entry,
    {
        self.header.entry_point()
    }

    pub fn section_headers(&self) -> (r: Result<Vec<SectionHeader>, ElfError>)
        requires
            table_fits(self.bytes(), self.header().shoff, self.header().shentsize, self.header().shnum, 0x40),
        ensures
            match r {
                Ok(v) => sections_of(self.bytes(), self.header()) == Ok::<Seq<SectionHeader>, ElfError>(v@),
                Err(e) => sections_of(self.bytes(), self.header()) == Err::<Seq<SectionHeader>, ElfError>(e),
            },
    {
        self.header.section_headers(self.raw)
    }

    pub fn program_headers(&self) -> (r: Result<Vec<ProgramHeader>, ElfError>)
        requires
            table_fits(self.bytes(), self.header().phoff, self.header().phentsize, self.header().phnum, 0x38),
        ensures
            match r {
                Ok(v) => programs_of(self.bytes(), self.header()) == Ok::<Seq<ProgramHeader>, ElfError>(v@),
                Err(e) => programs_of(self.bytes(), self.header()) == Err::<Seq<ProgramHeader>, ElfError>(e),
            },
    {
        self.header.program_headers(self.raw)
    }

    /// The relocation entries of all relocation sections, section by section.
    pub fn relocation_entries(&self) -> (r: Result<Vec<RelocationEntry>, ElfError>)
        requires
            table_fits(self.bytes(), self.header().shoff, self.header().shentsize, self.header().shnum, 0x40),
            sections_of(self.bytes(), self.header()) is Ok ==> relocations_fit(
                self.bytes(),
                sections_of(self.bytes(), self.header())->Ok_0,
            ),
        ensures
            match r {
                Ok(v) => relocations_of(self.bytes(), self.header()) == Ok::<Seq<RelocationEntry>, ElfError>(v@),
                Err(e) => relocations_of(self.bytes(), self.header()) == Err::<Seq<RelocationEntry>, ElfError>(e),
            },
            r matches Ok(v) ==> sections_of(self.bytes(), self.header()) matches Ok(shs) && from_relocation_sections(
                self.bytes(),
                shs,
                shs.len() as int,
                v@,
            ),
    {
        proof {
            if sections_of(self.bytes(), self.header()) is Ok {
                let shs = sections_of(self.bytes(), self.header())->Ok_0;
                lemma_relocations_from_relocation_sections(self.bytes(), shs, shs.len());
            }
        }
        let shs = match self.section_headers() {
            Ok(v) => v,
            Err(e) => {
                return Err(e);
            },
        };
        let ghost raw = self.raw@;
        let rlen = self.raw.len();
        let mut out: Vec<RelocationEntry> = Vec::new();
        let mut k: usize = 0;
        while k < shs.len()
            invariant
                k <= shs@.len(),
                raw == self.raw@,
                rlen == raw.len(),
                relocations_fit(raw, shs@),
                relocations_upto(raw, shs@, k as nat) == Ok::<Seq<RelocationEntry>, ElfError>(out@),
                sections_of(self.bytes(), self.header()) == Ok::<Seq<SectionHeader>, ElfError>(shs@),
            decreases shs@.len() - k,
        {
            let sh = shs[k];
            if sh.contains_relocation_entries() {
                let ghost before = out@;
                assert(sh.entsize > 0);
                let entry_count = sh.size / sh.entsize;
                let mut i: u64 = 0;
                assert(out@.skip(before.len() as int) =~= Seq::<RelocationEntry>::empty());
                assert(out@.take(before.len() as int) =~= before);
                while i < entry_count
                    invariant
                        k < shs@.len(),
                        sh == shs@[k as int],
                        sh.typ == SectionHeaderType::Rel || sh.typ == SectionHeaderType::Rela,
                        raw == self.raw@,
                        rlen == raw.len(),
                        sh.entsize > 0,
                        entry_count == sh.size / sh.entsize,
                        i <= entry_count,
                        relocations_fit(raw, shs@),
                        relocations_upto(raw, shs@, k as nat) == Ok::<Seq<RelocationEntry>, ElfError>(before),
                        section_relocations(raw, sh, i as nat) == Ok::<Seq<RelocationEntry>, ElfError>(out@.skip(before.len() as int)),
                        before.len() <= out@.len(),
                        out@.take(before.len() as int) == before,
                        sections_of(self.bytes(), self.header()) == Ok::<Seq<SectionHeader>, ElfError>(shs@),
                    decreases entry_count - i,
                {
                    assert(shs@[k as int].entsize > 0);
                    assert(entry_fits(raw, shs@[k as int], i as int));
                    proof {
                        assert(sh.offset + i * sh.entsize + 0x10 <= raw.len());
                        assert(raw.len() == self.raw@.len());
                        assert(i * sh.entsize <= usize::MAX);
                    }
                    let start = (sh.offset + i * sh.entsize) as usize;
                    let rel_raw = slice_from(self.raw, start);
                    let parsed = if sh.typ == SectionHeaderType::Rel {
                        RelocationEntry::new(rel_raw)
                    } else {
                        RelocationEntry::new_rela(rel_raw)
                    };
                    match parsed {
                        Ok(rel) => {
                            let ghost prev = out@;
                            out.push(rel);
                            proof {
                                assert(out@.skip(before.len() as int) =~= prev.skip(before.len() as int).push(rel));
                                assert(out@.take(before.len() as int) =~= prev.take(before.len() as int));
                            }
                        },
                        Err(e) => {
                            proof {
                                lemma_section_relocations_err(raw, sh, (i + 1) as nat, entry_count as nat);
                                lemma_relocations_upto_err(raw, shs@, (k + 1) as nat, shs@.len());
                            }
                            return Err(e);
                        },
                    }
                    i = i + 1;
                }
                proof {
                    assert(out@ =~= before + out@.skip(before.len() as int));
                }
            }
            k = k + 1;
        }
        Ok(out)
    }

    /// Hands every loadable segment and then every relocation entry to `loader`.
    /// Segments of thread-local storage are not supported.
    pub fn load<L: ElfLoader>(&self, loader: &mut L) -> (r: Result<(), ElfError>)
        requires
            table_fits(self.bytes(), self.header().phoff, self.header().phentsize, self.header().phnum, 0x38),
            table_fits(self.bytes(), self.header().shoff, self.header().shentsize, self.header().shnum, 0x40),
            sections_of(self.bytes(), self.header()) is Ok ==> relocations_fit(
                self.bytes(),
                sections_of(self.bytes(), self.header())->Ok_0,
            ),
            programs_of(self.bytes(), self.header()) is Ok ==> forall|i: int|
                0 <= i < programs_of(self.bytes(), self.header())->Ok_0.len() ==> (#[trigger] programs_of(self.bytes(), self.header())->Ok_0[i]).typ != SegmentType::Tls,
        ensures
            match programs_of(self.bytes(), self.header()) {
                Err(e) => r == Err::<(), ElfError>(e) && final(loader).calls() == old(loader).calls(),
                Ok(phs) => match relocations_of(self.bytes(), self.header()) {
                    Ok(rels) => r is Ok && final(loader).calls() == old(loader).calls() + allocations(phs) + relocations(
                        rels,
                    ),
                    Err(e) => r == Err::<(), ElfError>(e) && final(loader).calls() == old(loader).calls() + allocations(
                        phs,
                    ),
                },
            },
            programs_of(self.bytes(), self.header()) matches Ok(phs) ==> {
                let loadable = phs.filter(|p: ProgramHeader| p.typ == SegmentType::Load);
                final(loader).calls().subrange(
                    old(loader).calls().len() as int,
                    (old(loader).calls().len() + loadable.len()) as int,
                ) == loadable.map_values(|p: ProgramHeader| LoaderCall::Allocate(p))
            },
    {
        proof {
            if programs_of(self.bytes(), self.header()) is Ok {
                lemma_allocations_are_the_loadable_segments(programs_of(self.bytes(), self.header())->Ok_0);
            }
        }
        let phs = match self.program_headers() {
            Ok(v) => v,
            Err(e) => {
                return Err(e);
            },
        };
        let mut i: usize = 0;
        while i < phs.len()
            invariant
                i <= phs@.len(),
                loader.calls() == old(loader).calls() + allocations(phs@.take(i as int)),
            decreases phs@.len() - i,
        {
            let ph = phs[i];
            proof {
                assert(phs@.take(i + 1).drop_last() =~= phs@.take(i as int));
            }
            if ph.is_loadable() {
                loader.allocate(ph);
            }
            i = i + 1;
        }
        proof {
            assert(phs@.take(i as int) =~= phs@);
        }
        let ghost after_allocations = loader.calls();
        let rels = match self.relocation_entries() {
            Ok(v) => v,
            Err(e) => {
                return Err(e);
            },
        };
        let mut j: usize = 0;
        while j < rels.len()
            invariant
                j <= rels@.len(),
                loader.calls() == after_allocations + relocations(rels@.take(j as int)),
            decreases rels@.len() - j,
        {
            proof {
                assert(relocations(rels@.take(j + 1)) =~= relocations(rels@.take(j as int)).push(LoaderCall::Relocate(rels@[j as int])));
            }
            loader.relocate(rels[j]);
            j = j + 1;
        }
        proof {
            assert(rels@.take(j as int) =~= rels@);
        }
        Ok(())
    }
}

/// Once an entry of a section fails, the section fails with its error.
proof fn lemma_section_relocations_err(raw: Seq<u8>, sh: SectionHeader, j: nat, m: nat)
    requires
        j <= m,
        section_relocations(raw, sh, j) is Err,
    ensures
        section_relocations(raw, sh, m) == section_relocations(raw, sh, j),
    decreases m - j,
{
    if j < m {
        lemma_section_relocations_err(raw, sh, j, (m - 1) as nat);
    }
}

/// Once a section fails, the relocations of the file fail with its error.
proof fn lemma_relocations_upto_err(raw: Seq<u8>, shs: Seq<SectionHeader>, k: nat, m: nat)
    requires
        k <= m,
        relocations_upto(raw, shs, k) is Err,
    ensures
        relocations_upto(raw, shs, m) == relocations_upto(raw, shs, k),
    decreases m - k,
{
    if k < m {
        lemma_relocations_upto_err(raw, shs, k, (m - 1) as nat);
    }
}

/// Something that places the segments of an ELF file and applies its relocations.
/// A call made to an `ElfLoader`.
#[derive(Debug, Clone, Copy, PartialEq, Eq, Structural)]
pub enum LoaderCall {
    Allocate(ProgramHeader),
    Relocate(RelocationEntry),
    Tls,
}

/// What loads the segments of a file and applies its relocations.
pub trait ElfLoader {
    /// The calls the loader has received so far, oldest first.
    spec fn calls(&self) -> Seq<LoaderCall>;

    fn allocate(&mut self, program_header: ProgramHeader)
        ensures
            final(self).calls() == old(self).calls().push(LoaderCall::Allocate(program_header)),
    ;

    fn relocate(&mut self, relocation: RelocationEntry)
        ensures
            final(self).calls() == old(self).calls().push(LoaderCall::Relocate(relocation)),
    ;

    fn tls(&mut self)
        ensures
            final(self).calls() == old(self).calls().push(LoaderCall::Tls),
    ;
}

/// A loader that only records the calls it receives, for a dry run of a load.
pub struct RecordingLoader {
    pub calls: Vec<LoaderCall>,
}

impl RecordingLoader {
    pub fn new() -> (r: Self)
        ensures
            r.calls@ == Seq::<LoaderCall>::empty(),
    {
        RecordingLoader { calls: Vec::new() }
    }
}

impl ElfLoader for RecordingLoader {
    open spec fn calls(&self) -> Seq<LoaderCall> {
        self.calls@
    }

    fn allocate(&mut self, program_header: ProgramHeader) {
        self.calls.push(LoaderCall::Allocate(program_header));
    }

    fn relocate(&mut self, relocation: RelocationEntry) {
        self.calls.push(LoaderCall::Relocate(relocation));
    }

    fn tls(&mut self) {
        self.calls.push(LoaderCall::Tls);
    }
}

/// The `allocate` calls for the program headers `phs`: one for each loadable
/// segment, in order.
pub open spec fn allocations(phs: Seq<ProgramHeader>) -> Seq<LoaderCall>
    decreases phs.len(),
{
    if phs.len() == 0 {
        Seq::empty()
    } else {
        allocations(phs.drop_last()) + if phs.last().typ == SegmentType::Load {
            seq![LoaderCall::Allocate(phs.last())]
        } else {
            Seq::empty()
        }
    }
}

/// `load` allocates exactly the loadable segments, in order: its
/// `allocate` calls are one for each program header of type `Load`, in the
/// order of the headers, and none for a header of any other type.
pub proof fn lemma_allocations_are_the_loadable_segments(phs: Seq<ProgramHeader>)
    ensures
        allocations(phs) == phs.filter(|p: ProgramHeader| p.typ == SegmentType::Load).map_values(
            |p: ProgramHeader| LoaderCall::Allocate(p),
        ),
    decreases phs.len(),
{
    reveal(Seq::filter);
    let pred = |p: ProgramHeader| p.typ == SegmentType::Load;
    let call = |p: ProgramHeader| LoaderCall::Allocate(p);
    if phs.len() > 0 {
        lemma_allocations_are_the_loadable_segments(phs.drop_last());
        let rest = phs.drop_last().filter(pred);
        if pred(phs.last()) {
            assert(rest.push(phs.last()).map_values(call) =~= rest.map_values(call) + seq![LoaderCall::Allocate(phs.last())]);
        } else {
            assert(rest.map_values(call) =~= rest.map_values(call) + Seq::<LoaderCall>::empty());
        }
    } else {
        assert(phs.filter(pred).map_values(call) =~= Seq::<LoaderCall>::empty());
    }
}

/// The `relocate` calls for the relocation entries `rels`, in order.
pub open spec fn relocations(rels: Seq<RelocationEntry>) -> Seq<LoaderCall> {
    rels.map_values(|r: RelocationEntry| LoaderCall::Relocate(r))
}

} // verus!
