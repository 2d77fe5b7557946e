//! Reading the header and the program headers of a 64-bit little-endian ELF
//! image.

use vstd::prelude::*;

verus! {

/// Bytes of the ELF header.
pub const ELF_HEADER_SIZE: usize = 64;

/// Bytes of one program header.
pub const PROGRAM_HEADER_SIZE: usize = 56;

/// Type of a loadable segment.
pub const PT_LOAD: u32 = 1;

/// Segment flag: executable.
pub const PF_X: u32 = 1;

/// Segment flag: writable.
pub const PF_W: u32 = 2;

/// Segment flag: readable.
pub const PF_R: u32 = 4;

/// The 16-bit little-endian number at offset `off`.
pub open spec fn le_u16(b: Seq<u8>, off: int) -> int {
    b[off] as int + b[off + 1] as int * 0x100
}

/// The 32-bit little-endian number at offset `off`.
pub open spec fn le_u32(b: Seq<u8>, off: int) -> int {
    le_u16(b, off) + le_u16(b, off + 2) * 0x1_0000
}

/// The 64-bit little-endian number at offset `off`.
pub open spec fn le_u64(b: Seq<u8>, off: int) -> int {
    le_u32(b, off) + le_u32(b, off + 4) * 0x1_0000_0000
}

/// Reads the 16-bit little-endian number at offset `off`.
pub fn read_u16(data: &[u8], off: usize) -> (r: u16)
    requires
        off + 2 <= data@.len(),
    ensures
        r == le_u16(data@, off as int),
{
    data[off] as u16 + data[off + 1] as u16 * 0x100
}

/// Reads the 32-bit little-endian number at offset `off`.
pub fn read_u32(data: &[u8], off: usize) -> (r: u32)
    requires
        off + 4 <= data@.len(),
    ensures
        r == le_u32(data@, off as int),
{
    let _n: usize = data.len();
    read_u16(data, off) as u32 + read_u16(data, off + 2) as u32 * 0x1_0000
}

/// Reads the 64-bit little-endian number at offset `off`.
pub fn read_u64(data: &[u8], off: usize) -> (r: u64)
    requires
        off + 8 <= data@.len(),
    ensures
        r == le_u64(data@, off as int),
{
    let _n: usize = data.len();
    read_u32(data, off) as u64 + read_u32(data, off + 4) as u64 * 0x1_0000_0000
}

/// The fields of the ELF header that loading uses.
#[derive(Copy, Clone, Debug, PartialEq, Eq, Structural)]
pub struct ElfHeader {
    /// Virtual address of the first instruction.
    pub entry: u64,
    /// File offset of the program header table.
    pub phoff: u64,
    /// Bytes of one entry of that table.
    pub phentsize: u16,
    /// Number of entries of that table.
    pub phnum: u16,
}

/// One entry of the program header table.
#[derive(Copy, Clone, Debug, PartialEq, Eq, Structural)]
pub struct ProgramHeader {
    /// Kind of segment.
    pub p_type: u32,
    /// Access flags.
    pub flags: u32,
    /// File offset of the segment's bytes.
    pub offset: u64,
    /// Virtual address of the segment.
    pub vaddr: u64,
    /// Bytes of the segment in the file.
    pub filesz: u64,
    /// Bytes of the segment in memory.
    pub memsz: u64,
}

/// Why an image is not accepted as an ELF executable.
#[derive(Copy, Clone, Debug, PartialEq, Eq, Structural)]
pub enum ElfError {
    /// Fewer bytes than an ELF header has.
    TooShort,
    /// The first four bytes are not `0x7f 'E' 'L' 'F'`.
    BadMagic,
    /// Not a 64-bit little-endian image with program headers of 56 bytes.
    Unsupported,
    /// The program header table reaches beyond the end of the image.
    Truncated,
}

/// Whether the image starts with the ELF magic number.
pub open spec fn has_magic(b: Seq<u8>) -> bool {
    b[0] == 0x7f && b[1] == 0x45 && b[2] == 0x4c && b[3] == 0x46
}

/// The header fields of an image of at least 64 bytes.
pub open spec fn header_of(b: Seq<u8>) -> ElfHeader {
    ElfHeader {
        entry: le_u64(b, 24) as u64,
        phoff: le_u64(b, 32) as u64,
        phentsize: le_u16(b, 54) as u16,
        phnum: le_u16(b, 56) as u16,
    }
}

/// Why the header of the image is refused, if it is.
pub open spec fn header_error(b: Seq<u8>) -> Option<ElfError> {
    if b.len() < 64 {
        Some(ElfError::TooShort)
    } else if !has_magic(b) {
        Some(ElfError::BadMagic)
    } else if b[4] != 2 || b[5] != 1 || header_of(b).phentsize != 56 {
        Some(ElfError::Unsupported)
    } else if header_of(b).phoff + header_of(b).phnum * 56 > b.len() {
        Some(ElfError::Truncated)
    } else {
        None
    }
}

/// Entry `i` of the program header table of an image with a good header.
pub open spec fn program_header_of(b: Seq<u8>, i: int) -> ProgramHeader {
    let off = header_of(b).phoff + i * 56;
    ProgramHeader {
        p_type: le_u32(b, off) as u32,
        flags: le_u32(b, off + 4) as u32,
        offset: le_u64(b, off + 8) as u64,
        vaddr: le_u64(b, off + 16) as u64,
        filesz: le_u64(b, off + 32) as u64,
        memsz: le_u64(b, off + 40) as u64,
    }
}

/// Reads and checks the ELF header.
pub fn parse_header(data: &[u8]) -> (r: Result<ElfHeader, ElfError>)
    ensures
        r matches Ok(h) ==> header_error(data@) is None && h == header_of(data@),
        r matches Err(e) ==> header_error(data@) == Some(e),
{
    if data.len() < ELF_HEADER_SIZE {
        return Err(ElfError::TooShort);
    }
    if data[0] != 0x7f || data[1] != 0x45 || data[2] != 0x4c || data[3] != 0x46 {
        return Err(ElfError::BadMagic);
    }
    let h = ElfHeader {
        entry: read_u64(data, 24),
        phoff: read_u64(data, 32),
        phentsize: read_u16(data, 54),
        phnum: read_u16(data, 56),
    };
    if data[4] != 2 || data[5] != 1 || h.phentsize != 56 {
        return Err(ElfError::Unsupported);
    }
    let table: u64 = h.phnum as u64 * 56;
    if h.phoff > data.len() as u64 || table > data.len() as u64 - h.phoff {
        return Err(ElfError::Truncated);
    }
    Ok(h)
}

/// Reads entry `i` of the program header table.
pub fn parse_program_header(data: &[u8], h: &ElfHeader, i: u16) -> (r: ProgramHeader)
    requires
        header_error(data@) is None,
        *h == header_of(data@),
        i < h.phnum,
    ensures
        r == program_header_of(data@, i as int),
{
    let _n: usize = data.len();
    assert(h.phoff + i * 56 + 56 <= data@.len());
    let off: usize = (h.phoff + i as u64 * 56) as usize;
    ProgramHeader {
        p_type: read_u32(data, off),
        flags: read_u32(data, off + 4),
        offset: read_u64(data, off + 8),
        vaddr: read_u64(data, off + 16),
        filesz: read_u64(data, off + 32),
        memsz: read_u64(data, off + 40),
    }
}

} // verus!
