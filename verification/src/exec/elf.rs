use vstd::prelude::*;
use vstd::bytes::{spec_u16_from_le_bytes, spec_u32_from_le_bytes};
use crate::wayland::protocol::{read_u16, read_u32, wire_u16, wire_u32};

verus! {

/// Bytes of an ELF32 file header.
pub const ELF_HEADER_SIZE: usize = 52;
/// Bytes of an ELF32 program header.
pub const PROGRAM_HEADER_SIZE: usize = 32;

/// The ELF32 file header, fields in file order (little-endian on disk).
#[derive(Clone, Copy)]
pub struct ElfHeader {
    pub e_ident: [u8; 16],
    pub e_type: u16,
    pub e_machine: u16,
    pub e_version: u32,
    pub e_entry: u32,
    pub e_phoff: u32,
    pub e_shoff: u32,
    pub e_flags: u32,
    pub e_ehsize: u16,
    pub e_phentsize: u16,
    pub e_phnum: u16,
    pub e_shentsize: u16,
    pub e_shnum: u16,
    pub e_shstrndx: u16,
}

/// An ELF32 program header.
#[derive(Clone, Copy)]
pub struct ProgramHeader {
    pub p_type: u32,
    pub p_offset: u32,
    pub p_vaddr: u32,
    pub p_paddr: u32,
    pub p_filesz: u32,
    pub p_memsz: u32,
    pub p_flags: u32,
    pub p_align: u32,
}

/// The program header laid out at byte `off` of `d`.
pub open spec fn ph_at(d: Seq<u8>, off: int) -> ProgramHeader {
    ProgramHeader {
        p_type: wire_u32(d, off),
        p_offset: wire_u32(d, off + 4),
        p_vaddr: wire_u32(d, off + 8),
        p_paddr: wire_u32(d, off + 12),
        p_filesz: wire_u32(d, off + 16),
        p_memsz: wire_u32(d, off + 20),
        p_flags: wire_u32(d, off + 24),
        p_align: wire_u32(d, off + 28),
    }
}

/// The file begins with the ELF magic `7F 'E' 'L' 'F'`.
pub open spec fn has_magic(d: Seq<u8>) -> bool {
    d[0] == 0x7F && d[1] == 0x45 && d[2] == 0x4C && d[3] == 0x46
}

pub open spec fn entry_of(d: Seq<u8>) -> u32 {
    wire_u32(d, 24)
}

pub open spec fn phoff_of(d: Seq<u8>) -> int {
    wire_u32(d, 28) as int
}

pub open spec fn phentsize_of(d: Seq<u8>) -> int {
    wire_u16(d, 42) as int
}

pub open spec fn phnum_of(d: Seq<u8>) -> int {
    wire_u16(d, 44) as int
}

/// Where program header `i` starts.
pub open spec fn ph_offset(d: Seq<u8>, i: int) -> int {
    phoff_of(d) + i * phentsize_of(d)
}

/// Program header `i` lies wholly inside the file.
pub open spec fn ph_in_file(d: Seq<u8>, i: int) -> bool {
    ph_offset(d, i) + PROGRAM_HEADER_SIZE <= d.len()
}

/// Walking the program-header table cannot overflow an address.
pub open spec fn ph_table_fits(d: Seq<u8>) -> bool {
    d.len() >= ELF_HEADER_SIZE ==> phoff_of(d) + phnum_of(d) * phentsize_of(d) + PROGRAM_HEADER_SIZE <= usize::MAX
}

/// `phs` are the program headers read from the table in order, stopping
/// at the first that does not lie wholly inside the file.
pub open spec fn read_headers(d: Seq<u8>, phs: Seq<ProgramHeader>) -> bool {
    &&& phs.len() <= phnum_of(d)
    &&& forall|i: int| 0 <= i < phs.len() ==> ph_in_file(d, i)
    &&& forall|i: int| 0 <= i < phs.len() ==> #[trigger] phs[i] == ph_at(d, ph_offset(d, i))
    &&& phs.len() < phnum_of(d) ==> !ph_in_file(d, phs.len() as int)
}

/// The file is long enough for a header and starts with the magic.
pub open spec fn is_elf(d: Seq<u8>) -> bool {
    d.len() >= ELF_HEADER_SIZE && has_magic(d)
}

/// Reads the program header at byte `off`.
pub fn read_program_header(data: &[u8], off: usize) -> (ph: ProgramHeader)
    requires
        off + PROGRAM_HEADER_SIZE <= data@.len(),
    ensures
        ph == ph_at(data@, off as int),
{
    let n = data.len();
    assert(n == data@.len());
    ProgramHeader {
        p_type: read_u32(data, off),
        p_offset: read_u32(data, off + 4),
        p_vaddr: read_u32(data, off + 8),
        p_paddr: read_u32(data, off + 12),
        p_filesz: read_u32(data, off + 16),
        p_memsz: read_u32(data, off + 20),
        p_flags: read_u32(data, off + 24),
        p_align: read_u32(data, off + 28),
    }
}

/// Reads the file header at the start of `data`.
pub fn read_elf_header(data: &[u8]) -> (h: ElfHeader)
    requires
        data@.len() >= ELF_HEADER_SIZE,
    ensures
        h.e_ident@ == data@.subrange(0, 16),
        h.e_entry == entry_of(data@),
        h.e_phoff == phoff_of(data@),
        h.e_phentsize == phentsize_of(data@),
        h.e_phnum == phnum_of(data@),
        h.e_type == wire_u16(data@, 16),
        h.e_machine == wire_u16(data@, 18),
        h.e_version == wire_u32(data@, 20),
        h.e_shoff == wire_u32(data@, 32),
        h.e_flags == wire_u32(data@, 36),
        h.e_ehsize == wire_u16(data@, 40),
        h.e_shentsize == wire_u16(data@, 46),
        h.e_shnum == wire_u16(data@, 48),
        h.e_shstrndx == wire_u16(data@, 50),
{
    let mut ident = [0u8; 16];
    let mut i: usize = 0;
    while i < 16
        invariant
            i <= 16,
            data@.len() >= ELF_HEADER_SIZE,
            forall|j: int| 0 <= j < i ==> ident@[j] == data@[j],
        decreases 16 - i,
    {
        ident[i] = data[i];
        i += 1;
    }
    proof {
        assert(ident@ =~= data@.subrange(0, 16));
    }
    ElfHeader {
        e_ident: ident,
        e_type: read_u16(data, 16),
        e_machine: read_u16(data, 18),
        e_version: read_u32(data, 20),
        e_entry: read_u32(data, 24),
        e_phoff: read_u32(data, 28),
        e_shoff: read_u32(data, 32),
        e_flags: read_u32(data, 36),
        e_ehsize: read_u16(data, 40),
        e_phentsize: read_u16(data, 42),
        e_phnum: read_u16(data, 44),
        e_shentsize: read_u16(data, 46),
        e_shnum: read_u16(data, 48),
        e_shstrndx: read_u16(data, 50),
    }
}

/// Parses an ELF32 image: its entry point and its program headers. Fails
/// when the image is shorter than a file header or lacks the magic.
pub fn parse_elf(data: &[u8]) -> (r: Result<(u32, Vec<ProgramHeader>), ()>)
    requires
        ph_table_fits(data@),
    ensures
        r is Err <==> !is_elf(data@),
        r matches Ok((entry, phs)) ==> entry == entry_of(data@) && read_headers(data@, phs@),
{
    if data.len() < ELF_HEADER_SIZE {
        return Err(());
    }
    let header = read_elf_header(data);
    if header.e_ident[0] != 0x7F || header.e_ident[1] != 0x45 || header.e_ident[2] != 0x4C
        || header.e_ident[3] != 0x46 {
        return Err(());
    }
    let mut program_headers: Vec<ProgramHeader> = Vec::new();
    let mut i: u16 = 0;
    while i < header.e_phnum
        invariant
            header.e_phoff == phoff_of(data@),
            header.e_phentsize == phentsize_of(data@),
            header.e_phnum == phnum_of(data@),
            ph_table_fits(data@),
            data@.len() >= ELF_HEADER_SIZE,
            i <= header.e_phnum,
            program_headers@.len() == i,
            forall|k: int| 0 <= k < i ==> ph_in_file(data@, k),
            forall|k: int| 0 <= k < i ==> #[trigger] program_headers@[k] == ph_at(data@, ph_offset(data@, k)),
        ensures
            i <= header.e_phnum,
            program_headers@.len() == i,
            forall|k: int| 0 <= k < i ==> ph_in_file(data@, k),
            forall|k: int| 0 <= k < i ==> #[trigger] program_headers@[k] == ph_at(data@, ph_offset(data@, k)),
            i == header.e_phnum || !ph_in_file(data@, i as int),
        decreases header.e_phnum - i,
    {
        proof {
            assert(i * phentsize_of(data@) <= phnum_of(data@) * phentsize_of(data@)) by (nonlinear_arith)
                requires
                    0 <= i <= phnum_of(data@),
                    0 <= phentsize_of(data@),
            ;
        }
        let offset = (header.e_phoff as usize) + (i as usize * header.e_phentsize as usize);
        if offset + PROGRAM_HEADER_SIZE > data.len() {
            break;
        }
        let ph = read_program_header(data, offset);
        program_headers.push(ph);
        i += 1;
    }
    Ok((header.e_entry, program_headers))
}

/// The little-endian word at byte `o` of `d`.
pub open spec fn le_word(d: Seq<u8>, o: int) -> u32 {
    spec_u32_from_le_bytes(d.subrange(o, o + 4))
}

/// Where program header `i` starts, by the ELF32 layout: `e_phoff` (the
/// word at byte 28) plus `i` times `e_phentsize` (the half-word at byte 42).
pub open spec fn ph_start(d: Seq<u8>, i: int) -> int {
    spec_u32_from_le_bytes(d.subrange(28, 32)) as int + i * (spec_u16_from_le_bytes(d.subrange(42, 44)) as int)
}

/// Program header `i` holds the words of the ELF32 layout at `o`.
pub open spec fn ph_fields_at(d: Seq<u8>, ph: ProgramHeader, o: int) -> bool {
    &&& o + 32 <= d.len()
    &&& ph.p_type == le_word(d, o)
    &&& ph.p_offset == le_word(d, o + 4)
    &&& ph.p_vaddr == le_word(d, o + 8)
    &&& ph.p_paddr == le_word(d, o + 12)
    &&& ph.p_filesz == le_word(d, o + 16)
    &&& ph.p_memsz == le_word(d, o + 20)
    &&& ph.p_flags == le_word(d, o + 24)
    &&& ph.p_align == le_word(d, o + 28)
}

/// Each program header `parse_elf` gives is read, field by field, from the
/// little-endian words of the ELF32 layout: header `i` starts at
/// `ph_start(d, i)`, and its type, offset, virtual and physical address,
/// file and memory size, flags and alignment are the words at bytes 0, 4,
/// 8, 12, 16, 20, 24 and 28 of it, all inside the file.
pub proof fn lemma_program_header_fields(d: Seq<u8>, phs: Seq<ProgramHeader>)
    requires
        d.len() >= ELF_HEADER_SIZE,
        read_headers(d, phs),
    ensures
        forall|i: int| 0 <= i < phs.len() ==> ph_fields_at(d, #[trigger] phs[i], ph_start(d, i)),
{
    assert forall|i: int| 0 <= i < phs.len() implies ph_fields_at(d, #[trigger] phs[i], ph_start(d, i)) by {
        assert(ph_in_file(d, i));
        assert(phs[i] == ph_at(d, ph_offset(d, i)));
        assert(ph_offset(d, i) == ph_start(d, i));
    }
}

/// The program header `read_program_header` reads at byte `off` holds
/// the words of the ELF32 layout there: type, offset, virtual and physical
/// address, file and memory size, flags and alignment at bytes 0, 4, 8,
/// 12, 16, 20, 24 and 28 from `off`.
pub proof fn lemma_read_program_header_fields(d: Seq<u8>, off: int)
    requires
        0 <= off,
        off + PROGRAM_HEADER_SIZE <= d.len(),
    ensures
        ph_fields_at(d, ph_at(d, off), off),
{
}

/// The file-header fields the loader uses are read from the ELF32 layout:
/// the magic is the bytes `7F 'E' 'L' 'F'` at the start, the entry point
/// the word at byte 24, the program-header table's offset the word at byte
/// 28, and its entry size and count the half-words at bytes 42 and 44.
pub proof fn lemma_elf_header_fields(d: Seq<u8>)
    requires
        d.len() >= ELF_HEADER_SIZE,
    ensures
        has_magic(d) <==> d.subrange(0, 4) == seq![0x7Fu8, 0x45u8, 0x4Cu8, 0x46u8],
        entry_of(d) == le_word(d, 24),
        phoff_of(d) == le_word(d, 28) as int,
        phentsize_of(d) == spec_u16_from_le_bytes(d.subrange(42, 44)) as int,
        phnum_of(d) == spec_u16_from_le_bytes(d.subrange(44, 46)) as int,
{
    let m = seq![0x7Fu8, 0x45u8, 0x4Cu8, 0x46u8];
    if has_magic(d) {
        assert(d.subrange(0, 4) =~= m);
    }
    if d.subrange(0, 4) == m {
        assert(d[0] == d.subrange(0, 4)[0] && d[1] == d.subrange(0, 4)[1]);
        assert(d[2] == d.subrange(0, 4)[2] && d[3] == d.subrange(0, 4)[3]);
    }
}

} // verus!
