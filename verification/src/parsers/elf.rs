//! ELF64 binary parser.
use vstd::prelude::*;

verus! {

/// The fixed part of an ELF64 file header that the tooling reads.
#[derive(Debug, Clone)]
pub struct ElfHeader {
    pub e_type: u16,
    pub e_machine: u16,
    pub e_entry: u64,
    pub e_phoff: u64,
    pub e_shoff: u64,
    pub e_phnum: u16,
    pub e_shnum: u16,
    pub e_shentsize: u16,
}

/// One entry of the program header table (56 bytes).
#[derive(Debug, Clone)]
pub struct ProgramHeader {
    pub p_type: u32,
    pub p_flags: u32,
    pub p_offset: u64,
    pub p_vaddr: u64,
    pub p_paddr: u64,
    pub p_filesz: u64,
    pub p_memsz: u64,
    pub p_align: u64,
}

/// One entry of the section header table (64 bytes are read).
#[derive(Debug, Clone)]
pub struct SectionHeader {
    pub sh_name: u32,
    pub sh_type: u32,
    pub sh_flags: u64,
    pub sh_addr: u64,
    pub sh_offset: u64,
    pub sh_size: u64,
    pub sh_link: u32,
    pub sh_info: u32,
    pub sh_addralign: u64,
    pub sh_entsize: u64,
}

/// A parsed ELF64 image together with a copy of its bytes.
#[derive(Debug, Clone)]
pub struct ElfBinary {
    pub header: ElfHeader,
    pub segments: Vec<ProgramHeader>,
    pub sections: Vec<SectionHeader>,
    pub data: Vec<u8>,
}

/// Little-endian value of the two bytes of `s` at `o`.
pub open spec fn le16(s: Seq<u8>, o: int) -> int {
    s[o] + 256 * s[o + 1]
}

/// Little-endian value of the four bytes of `s` at `o`.
pub open spec fn le32(s: Seq<u8>, o: int) -> int {
    le16(s, o) + 65536 * le16(s, o + 2)
}

/// Little-endian value of the eight bytes of `s` at `o`.
pub open spec fn le64(s: Seq<u8>, o: int) -> int {
    le32(s, o) + 4294967296 * le32(s, o + 4)
}

/// The eight bytes of `x`, least significant first, as `u64::to_le_bytes` gives them.
pub open spec fn le_bytes64(x: u64) -> Seq<u8> {
    seq![
        x as u8,
        (x >> 8u64) as u8,
        (x >> 16u64) as u8,
        (x >> 24u64) as u8,
        (x >> 32u64) as u8,
        (x >> 40u64) as u8,
        (x >> 48u64) as u8,
        (x >> 56u64) as u8,
    ]
}

/// Reading eight bytes back where the little-endian bytes of `x` were put
/// gives `x`, whatever stands before and after them.
pub proof fn lemma_read_back_u64(a: Seq<u8>, x: u64, b: Seq<u8>)
    ensures
        le64(a + le_bytes64(x) + b, a.len() as int) == x,
{
    let d = a + le_bytes64(x) + b;
    let o = a.len() as int;
    let bs = le_bytes64(x);
    assert forall|i: int| 0 <= i < 8 implies #[trigger] d[o + i] == bs[i] by {}
    let b0 = x as u8;
    let b1 = (x >> 8u64) as u8;
    let b2 = (x >> 16u64) as u8;
    let b3 = (x >> 24u64) as u8;
    let b4 = (x >> 32u64) as u8;
    let b5 = (x >> 40u64) as u8;
    let b6 = (x >> 48u64) as u8;
    let b7 = (x >> 56u64) as u8;
    assert(d[o] == b0 && d[o + 1] == b1 && d[o + 2] == b2 && d[o + 3] == b3);
    assert(d[o + 4] == b4 && d[o + 5] == b5 && d[o + 6] == b6 && d[o + 7] == b7);
    assert(b0 + 256 * b1 + 65536 * (b2 + 256 * b3) + 4294967296 * ((b4 + 256 * b5) + 65536 * (b6 + 256 * b7)) == x)
        by (bit_vector)
        requires
            b0 == x as u8,
            b1 == (x >> 8u64) as u8,
            b2 == (x >> 16u64) as u8,
            b3 == (x >> 24u64) as u8,
            b4 == (x >> 32u64) as u8,
            b5 == (x >> 40u64) as u8,
            b6 == (x >> 48u64) as u8,
            b7 == (x >> 56u64) as u8,
    ;
}

/// Reads a little-endian `u16` at `offset`.
pub fn read_u16(data: &[u8], offset: usize) -> (r: u16)
    requires
        offset + 2 <= data.len(),
    ensures
        r == le16(data@, offset as int),
{
    let lo = data[offset] as u16;
    let hi = data[offset + 1] as u16;
    lo + hi * 256
}

/// Reads a little-endian `u32` at `offset`.
pub fn read_u32(data: &[u8], offset: usize) -> (r: u32)
    requires
        offset + 4 <= data.len(),
    ensures
        r == le32(data@, offset as int),
{
    let lo = read_u16(data, offset) as u32;
    let hi = read_u16(data, offset + 2) as u32;
    lo + hi * 65536
}

/// Reads a little-endian `u64` at `offset`.
pub fn read_u64(data: &[u8], offset: usize) -> (r: u64)
    requires
        offset + 8 <= data.len(),
    ensures
        r == le64(data@, offset as int),
{
    let lo = read_u32(data, offset) as u64;
    let hi = read_u32(data, offset + 4) as u64;
    lo + hi * 4294967296
}

/// The input is at least 64 bytes long and starts with `\x7fELF`.
pub open spec fn elf_accepts(d: Seq<u8>) -> bool {
    &&& d.len() >= 64
    &&& d[0] == 0x7f
    &&& d[1] == 0x45
    &&& d[2] == 0x4c
    &&& d[3] == 0x46
}

pub open spec fn spec_elf_header(d: Seq<u8>) -> ElfHeader {
    ElfHeader {
        e_type: le16(d, 16) as u16,
        e_machine: le16(d, 18) as u16,
        e_entry: le64(d, 24) as u64,
        e_phoff: le64(d, 32) as u64,
        e_shoff: le64(d, 40) as u64,
        e_phnum: le16(d, 56) as u16,
        e_shnum: le16(d, 60) as u16,
        e_shentsize: le16(d, 58) as u16,
    }
}

pub open spec fn spec_program_header(d: Seq<u8>, o: int) -> ProgramHeader {
    ProgramHeader {
        p_type: le32(d, o) as u32,
        p_flags: le32(d, o + 4) as u32,
        p_offset: le64(d, o + 8) as u64,
        p_vaddr: le64(d, o + 16) as u64,
        p_paddr: le64(d, o + 24) as u64,
        p_filesz: le64(d, o + 32) as u64,
        p_memsz: le64(d, o + 40) as u64,
        p_align: le64(d, o + 48) as u64,
    }
}

/// The 64-byte ELF64 section entry at `o`.
pub open spec fn spec_section_header(d: Seq<u8>, o: int) -> SectionHeader {
    SectionHeader {
        sh_name: le32(d, o) as u32,
        sh_type: le32(d, o + 4) as u32,
        sh_flags: le64(d, o + 8) as u64,
        sh_addr: le64(d, o + 16) as u64,
        sh_offset: le64(d, o + 24) as u64,
        sh_size: le64(d, o + 32) as u64,
        sh_link: le32(d, o + 40) as u32,
        sh_info: le32(d, o + 44) as u32,
        sh_addralign: le64(d, o + 48) as u64,
        sh_entsize: le64(d, o + 56) as u64,
    }
}

pub open spec fn segment_offset(h: ElfHeader, i: int) -> int {
    h.e_phoff + i * 56
}

pub open spec fn segment_fits(d: Seq<u8>, h: ElfHeader, i: int) -> bool {
    segment_offset(h, i) + 56 <= d.len()
}

pub open spec fn section_offset(h: ElfHeader, i: int) -> int {
    h.e_shoff + i * h.e_shentsize
}

pub open spec fn section_fits(d: Seq<u8>, h: ElfHeader, i: int) -> bool {
    section_offset(h, i) + 64 <= d.len()
}

/// The section table is read only when its offset is set and its entries are 64 bytes or more.
pub open spec fn sections_present(h: ElfHeader) -> bool {
    h.e_shoff > 0 && h.e_shentsize >= 64
}

/// `k` program headers are read: each of them fits in the input and the next one,
/// if the header announces it, does not.
pub open spec fn segment_count_ok(d: Seq<u8>, h: ElfHeader, k: int) -> bool {
    &&& 0 <= k <= h.e_phnum
    &&& forall|i: int| 0 <= i < k ==> segment_fits(d, h, i)
    &&& k < h.e_phnum ==> !segment_fits(d, h, k)
}

/// `k` section headers are read, in the same manner as the program headers.
pub open spec fn section_count_ok(d: Seq<u8>, h: ElfHeader, k: int) -> bool {
    &&& 0 <= k <= h.e_shnum
    &&& forall|i: int| 0 <= i < k ==> section_fits(d, h, i)
    &&& k < h.e_shnum ==> !section_fits(d, h, k)
}

/// `b` is what parsing `d` yields.
pub open spec fn parsed_elf(d: Seq<u8>, b: ElfBinary) -> bool {
    let h = spec_elf_header(d);
    &&& b.header == h
    &&& segment_count_ok(d, h, b.segments@.len() as int)
    &&& forall|i: int|
        0 <= i < b.segments@.len() ==> #[trigger] b.segments@[i] == spec_program_header(
            d,
            segment_offset(h, i),
        )
    &&& if sections_present(h) {
        section_count_ok(d, h, b.sections@.len() as int)
    } else {
        b.sections@.len() == 0
    }
    &&& forall|i: int|
        0 <= i < b.sections@.len() ==> #[trigger] b.sections@[i] == spec_section_header(
            d,
            section_offset(h, i),
        )
    &&& b.data@ == d
}

fn read_program_header(data: &[u8], off: usize) -> (r: ProgramHeader)
    requires
        off + 56 <= data.len(),
    ensures
        r == spec_program_header(data@, off as int),
{
    ProgramHeader {
        p_type: read_u32(data, off),
        p_flags: read_u32(data, off + 4),
        p_offset: read_u64(data, off + 8),
        p_vaddr: read_u64(data, off + 16),
        p_paddr: read_u64(data, off + 24),
        p_filesz: read_u64(data, off + 32),
        p_memsz: read_u64(data, off + 40),
        p_align: read_u64(data, off + 48),
    }
}

fn read_section_header(data: &[u8], off: usize) -> (r: SectionHeader)
    requires
        off + 64 <= data.len(),
    ensures
        r == spec_section_header(data@, off as int),
{
    SectionHeader {
        sh_name: read_u32(data, off),
        sh_type: read_u32(data, off + 4),
        sh_flags: read_u64(data, off + 8),
        sh_addr: read_u64(data, off + 16),
        sh_offset: read_u64(data, off + 24),
        sh_size: read_u64(data, off + 32),
        sh_link: read_u32(data, off + 40),
        sh_info: read_u32(data, off + 44),
        sh_addralign: read_u64(data, off + 48),
        sh_entsize: read_u64(data, off + 56),
    }
}

proof fn lemma_le_bounds(d: Seq<u8>, o: int)
    requires
        0 <= o,
        o + 8 <= d.len(),
    ensures
        0 <= le32(d, o) < 0x1_0000_0000,
        0 <= le32(d, o + 4) < 0x1_0000_0000,
        0 <= le64(d, o) < 0x1_0000_0000_0000_0000,
{
}

/// The header of a parsed image is read at its ELF64 places: `e_type` is
/// the little-endian `u16` at byte 16, `e_machine` at 18, `e_entry` the
/// `u64` at 24, `e_phoff` at 32, `e_shoff` at 40, and the `u16`s
/// `e_phnum` at 56, `e_shentsize` at 58 and `e_shnum` at 60.
pub proof fn lemma_header_at_elf64_offsets(d: Seq<u8>, b: ElfBinary)
    requires
        parsed_elf(d, b),
        d.len() >= 64,
    ensures
        b.header.e_type == le16(d, 16),
        b.header.e_machine == le16(d, 18),
        b.header.e_entry == le64(d, 24),
        b.header.e_phoff == le64(d, 32),
        b.header.e_shoff == le64(d, 40),
        b.header.e_phnum == le16(d, 56),
        b.header.e_shentsize == le16(d, 58),
        b.header.e_shnum == le16(d, 60),
{
    lemma_le_bounds(d, 24);
    lemma_le_bounds(d, 32);
    lemma_le_bounds(d, 40);
}

/// The program headers of a parsed image are read at their ELF64 places:
/// the `i`-th entry starts at `e_phoff + 56 * i`, where `e_phoff` is the
/// little-endian `u64` at byte 32, and within it `p_type` is the `u32` at
/// +0, `p_flags` at +4, and the `u64`s `p_offset` at +8, `p_vaddr` at +16,
/// `p_paddr` at +24, `p_filesz` at +32, `p_memsz` at +40 and `p_align` at +48.
pub proof fn lemma_segments_at_elf64_offsets(d: Seq<u8>, b: ElfBinary, i: int)
    requires
        parsed_elf(d, b),
        0 <= i < b.segments@.len(),
    ensures
        ({
            let o = le64(d, 32) + 56 * i;
            let s = b.segments@[i];
            &&& o + 56 <= d.len()
            &&& s.p_type == le32(d, o)
            &&& s.p_flags == le32(d, o + 4)
            &&& s.p_offset == le64(d, o + 8)
            &&& s.p_vaddr == le64(d, o + 16)
            &&& s.p_paddr == le64(d, o + 24)
            &&& s.p_filesz == le64(d, o + 32)
            &&& s.p_memsz == le64(d, o + 40)
            &&& s.p_align == le64(d, o + 48)
        }),
{
    let h = spec_elf_header(d);
    assert(segment_fits(d, h, i));
    lemma_le_bounds(d, 32);
    let o = le64(d, 32) + 56 * i;
    assert(b.segments@[i] == spec_program_header(d, segment_offset(h, i)));
    lemma_le_bounds(d, o);
    lemma_le_bounds(d, o + 8);
    lemma_le_bounds(d, o + 16);
    lemma_le_bounds(d, o + 24);
    lemma_le_bounds(d, o + 32);
    lemma_le_bounds(d, o + 40);
    lemma_le_bounds(d, o + 48);
}

/// The section headers of a parsed image are read at their ELF64 places:
/// the `i`-th entry starts at `e_shoff + i * e_shentsize` (`e_shoff` the
/// `u64` at byte 40, `e_shentsize` the `u16` at byte 58), and within it
/// `sh_name` is the `u32` at +0, `sh_type` at +4, the `u64`s `sh_flags` at
/// +8, `sh_addr` at +16, `sh_offset` at +24, `sh_size` at +32, the `u32`s
/// `sh_link` at +40 and `sh_info` at +44, and the `u64`s `sh_addralign` at
/// +48 and `sh_entsize` at +56.
pub proof fn lemma_sections_at_elf64_offsets(d: Seq<u8>, b: ElfBinary, i: int)
    requires
        parsed_elf(d, b),
        0 <= i < b.sections@.len(),
    ensures
        ({
            let o = le64(d, 40) + i * le16(d, 58);
            let s = b.sections@[i];
            &&& o + 64 <= d.len()
            &&& s.sh_name == le32(d, o)
            &&& s.sh_type == le32(d, o + 4)
            &&& s.sh_flags == le64(d, o + 8)
            &&& s.sh_addr == le64(d, o + 16)
            &&& s.sh_offset == le64(d, o + 24)
            &&& s.sh_size == le64(d, o + 32)
            &&& s.sh_link == le32(d, o + 40)
            &&& s.sh_info == le32(d, o + 44)
            &&& s.sh_addralign == le64(d, o + 48)
            &&& s.sh_entsize == le64(d, o + 56)
        }),
{
    let h = spec_elf_header(d);
    assert(section_fits(d, h, i));
    assert(i * (h.e_shentsize as int) >= 0) by (nonlinear_arith)
        requires
            i >= 0,
            h.e_shentsize >= 0,
    ;
    lemma_le_bounds(d, 32);
    lemma_le_bounds(d, 40);
    assert(le16(d, 58) < 0x1_0000);
    assert(b.sections@[i] == spec_section_header(d, section_offset(h, i)));
    let o = le64(d, 40) + i * le16(d, 58);
    assert(h.e_shoff == le64(d, 40) && h.e_shentsize == le16(d, 58));
    assert(section_offset(h, i) == o);
    lemma_le_bounds(d, o);
    lemma_le_bounds(d, o + 8);
    lemma_le_bounds(d, o + 16);
    lemma_le_bounds(d, o + 24);
    lemma_le_bounds(d, o + 32);
    lemma_le_bounds(d, o + 40);
    lemma_le_bounds(d, o + 48);
    lemma_le_bounds(d, o + 56);
}

/// Parses an ELF64 image: the header, the program headers that fit in the
/// input and, when the header announces a section table of 64-byte or larger
/// entries, the section headers that fit.
pub fn parse_elf(data: &[u8]) -> (r: Option<ElfBinary>)
    ensures
        r is Some <==> elf_accepts(data@),
        r matches Some(b) ==> parsed_elf(data@, b),
{
    if data.len() < 64 || data[0] != 0x7f || data[1] != 0x45 || data[2] != 0x4c || data[3] != 0x46 {
        return None;
    }
    let header = ElfHeader {
        e_type: read_u16(data, 16),
        e_machine: read_u16(data, 18),
        e_entry: read_u64(data, 24),
        e_phoff: read_u64(data, 32),
        e_shoff: read_u64(data, 40),
        e_phnum: read_u16(data, 56),
        e_shnum: read_u16(data, 60),
        e_shentsize: read_u16(data, 58),
    };
    let ghost d = data@;

    let mut segments: Vec<ProgramHeader> = Vec::new();
    let n: u64 = header.e_phnum as u64;
    let mut i: u64 = 0;
    while i < n
        invariant
            i <= n,
            n == header.e_phnum,
            header == spec_elf_header(d),
            d == data@,
            segments@.len() == i,
            forall|j: int| 0 <= j < i ==> segment_fits(d, header, j),
            forall|j: int|
                0 <= j < i ==> #[trigger] segments@[j] == spec_program_header(
                    d,
                    segment_offset(header, j),
                ),
        ensures
            i < n ==> !segment_fits(d, header, i as int),
        decreases n - i,
    {
        let off: u128 = header.e_phoff as u128 + (i as u128) * 56;
        if off + 56 > data.len() as u128 {
            break;
        }
        segments.push(read_program_header(data, off as usize));
        i = i + 1;
    }

    let mut sections: Vec<SectionHeader> = Vec::new();
    if header.e_shoff > 0 && header.e_shentsize >= 64 {
        let m: u64 = header.e_shnum as u64;
        let stride: u64 = header.e_shentsize as u64;
        let mut k: u64 = 0;
        while k < m
            invariant
                k <= m,
                m == header.e_shnum,
                stride == header.e_shentsize,
                header == spec_elf_header(d),
                d == data@,
                sections@.len() == k,
                forall|j: int| 0 <= j < k ==> section_fits(d, header, j),
                forall|j: int|
                    0 <= j < k ==> #[trigger] sections@[j] == spec_section_header(
                        d,
                        section_offset(header, j),
                    ),
            ensures
                k < m ==> !section_fits(d, header, k as int),
            decreases m - k,
        {
            assert((k as int) * (stride as int) <= 65535 * 65535) by (nonlinear_arith)
                requires
                    k < 65536,
                    stride < 65536,
            ;
            let off: u128 = header.e_shoff as u128 + (k as u128) * (stride as u128);
            if off + 64 > data.len() as u128 {
                break;
            }
            sections.push(read_section_header(data, off as usize));
            k = k + 1;
        }
    }
    Some(ElfBinary { header, segments, sections, data: vstd::slice::slice_to_vec(data) })
}

} // verus!
