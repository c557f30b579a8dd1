//! NEM v3 driver format parser.
use vstd::prelude::*;
use crate::parsers::elf::{le16, le32, le64, read_u16, read_u32, read_u64};
use crate::text::{decimal, from_utf8_lossy, string_from_chars, utf8_lossy, decimal_chars};

verus! {

/// The magic bytes `NEM3` that open every NEM v3 image.
pub const NEM_MAGIC_V3: [u8; 4] = [78, 69, 77, 51];

/// Driver personalities known to the kernel.
#[derive(Debug, Clone, Copy, PartialEq, Eq, Structural)]
pub enum NemDriverType {
    Null,
    Echo,
    Lifecycle,
    Mutation,
    Fault,
    Burst,
}

/// Load categories of a driver.
#[derive(Debug, Clone, Copy, PartialEq, Eq, Structural)]
pub enum NemCategory {
    Boot,
    System,
    Demand,
}

/// The 80-byte NEM v3 header (fields that the tooling reads).
#[derive(Debug, Clone)]
pub struct NemHeaderV3 {
    pub magic: [u8; 4],
    pub abi_min: u16,
    pub abi_target: u16,
    pub abi_max: u16,
    pub driver_type: u32,
    pub category: u32,
    pub capabilities: u64,
    pub code_size: u32,
    pub reloc_count: u32,
    pub symbol_count: u32,
    pub hst_imports: u32,
}

/// A relocation record (20 bytes).
#[derive(Debug, Clone)]
pub struct NemReloc {
    pub offset: u64,
    pub addend: i64,
    pub kind: u32,
}

/// A symbol record (24 bytes) with its resolved name.
#[derive(Debug, Clone)]
pub struct NemSymbol {
    pub name: String,
    pub address: u64,
    pub size: u64,
}

/// A parsed NEM v3 driver image.
#[derive(Debug, Clone)]
pub struct NemDriver {
    pub header: NemHeaderV3,
    pub code: Vec<u8>,
    pub relocations: Vec<NemReloc>,
    pub symbols: Vec<NemSymbol>,
}

pub open spec fn driver_type_label(t: u32) -> Seq<char> {
    if t == 0 {
        "Null"@
    } else if t == 1 {
        "Echo"@
    } else if t == 2 {
        "Lifecycle"@
    } else if t == 3 {
        "Mutation"@
    } else if t == 4 {
        "Fault"@
    } else if t == 5 {
        "Burst"@
    } else {
        "Unknown"@
    }
}

pub open spec fn category_label(c: u32) -> Seq<char> {
    if c == 0 {
        "BOOT"@
    } else if c == 1 {
        "SYSTEM"@
    } else if c == 2 {
        "DEMAND"@
    } else {
        "UNKNOWN"@
    }
}

impl NemDriver {
    /// Name of the driver personality, `Unknown` for codes above 5.
    pub fn driver_type_name(&self) -> (r: &'static str)
        ensures
            r@ == driver_type_label(self.header.driver_type),
    {
        match self.header.driver_type {
            0 => "Null",
            1 => "Echo",
            2 => "Lifecycle",
            3 => "Mutation",
            4 => "Fault",
            5 => "Burst",
            _ => "Unknown",
        }
    }

    /// Name of the load category, `UNKNOWN` for codes above 2.
    pub fn category_name(&self) -> (r: &'static str)
        ensures
            r@ == category_label(self.header.category),
    {
        match self.header.category {
            0 => "BOOT",
            1 => "SYSTEM",
            2 => "DEMAND",
            _ => "UNKNOWN",
        }
    }

    /// The kernel ABI lies within the driver's declared `[abi_min, abi_max]`.
    pub fn abi_compatible(&self, kernel_abi: u16) -> (r: bool)
        ensures
            r == (self.header.abi_min <= kernel_abi && kernel_abi <= self.header.abi_max),
    {
        self.header.abi_min <= kernel_abi && kernel_abi <= self.header.abi_max
    }
}

/// The input is at least 80 bytes, starts with `NEM3`, and holds the code block.
pub open spec fn nem_accepts(d: Seq<u8>) -> bool {
    &&& d.len() >= 80
    &&& d[0] == 78
    &&& d[1] == 69
    &&& d[2] == 77
    &&& d[3] == 51
    &&& 80 + le32(d, 32) <= d.len()
}

pub open spec fn spec_nem_header(d: Seq<u8>) -> NemHeaderV3 {
    NemHeaderV3 {
        magic: [d[0], d[1], d[2], d[3]],
        abi_min: le16(d, 8) as u16,
        abi_target: le16(d, 10) as u16,
        abi_max: le16(d, 12) as u16,
        driver_type: le32(d, 16) as u32,
        category: le32(d, 20) as u32,
        capabilities: le64(d, 24) as u64,
        code_size: le32(d, 32) as u32,
        reloc_count: le32(d, 36) as u32,
        symbol_count: le32(d, 40) as u32,
        hst_imports: le32(d, 44) as u32,
    }
}

/// Two's-complement reading of a 64-bit value.
pub open spec fn as_signed64(v: int) -> int {
    if v < 0x8000_0000_0000_0000 {
        v
    } else {
        v - 0x1_0000_0000_0000_0000
    }
}

/// The relocation record that starts at `o`.
pub open spec fn reloc_at(d: Seq<u8>, o: int, r: NemReloc) -> bool {
    &&& r.offset == le64(d, o)
    &&& r.addend == as_signed64(le64(d, o + 8))
    &&& r.kind == le32(d, o + 16)
}

/// The first NUL byte at or after `p`.
pub open spec fn first_nul(d: Seq<u8>, p: int) -> Option<int>
    decreases d.len() - p,
{
    if p < 0 || p >= d.len() {
        None
    } else if d[p] == 0 {
        Some(p)
    } else {
        first_nul(d, p + 1)
    }
}

/// Length of the NUL-terminated name at `start`; an unterminated name is empty.
pub open spec fn name_len(d: Seq<u8>, start: int) -> int {
    match first_nul(d, start) {
        Some(k) => k - start,
        None => 0,
    }
}

/// The name of the `j`-th symbol whose name offset is `name_off`.
pub open spec fn spec_symbol_name(d: Seq<u8>, name_off: int, j: int) -> Seq<char> {
    if name_off < d.len() {
        utf8_lossy(d.subrange(name_off, name_off + name_len(d, name_off)))
    } else {
        "sym_"@ + decimal(j as nat)
    }
}

/// The `j`-th symbol record, starting at `o`.
pub open spec fn symbol_at(d: Seq<u8>, o: int, j: int, s: NemSymbol) -> bool {
    &&& s.name@ == spec_symbol_name(d, le64(d, o), j)
    &&& s.address == le64(d, o + 8)
    &&& s.size == le64(d, o + 16)
}

pub open spec fn code_end(d: Seq<u8>) -> int {
    80 + le32(d, 32)
}

/// `k` relocations are read: they fit one after the other behind the code
/// block and the next announced one does not.
pub open spec fn reloc_count_ok(d: Seq<u8>, k: int) -> bool {
    let n = le32(d, 36);
    &&& 0 <= k <= n
    &&& code_end(d) + 20 * k <= d.len()
    &&& k < n ==> code_end(d) + 20 * k + 20 > d.len()
}

/// `k` symbols are read behind the `nrel` relocations.
pub open spec fn symbol_count_ok(d: Seq<u8>, nrel: int, k: int) -> bool {
    let n = le32(d, 40);
    let base = code_end(d) + 20 * nrel;
    &&& 0 <= k <= n
    &&& base + 24 * k <= d.len()
    &&& k < n ==> base + 24 * k + 24 > d.len()
}

/// `v` is what parsing `d` yields.
pub open spec fn parsed_nem(d: Seq<u8>, v: NemDriver) -> bool {
    let nrel = v.relocations@.len() as int;
    let base = code_end(d) + 20 * nrel;
    &&& v.header == spec_nem_header(d)
    &&& v.code@ == d.subrange(80, code_end(d))
    &&& reloc_count_ok(d, nrel)
    &&& forall|i: int|
        0 <= i < nrel ==> reloc_at(d, code_end(d) + 20 * i, #[trigger] v.relocations@[i])
    &&& symbol_count_ok(d, nrel, v.symbols@.len() as int)
    &&& forall|j: int|
        0 <= j < v.symbols@.len() ==> symbol_at(d, base + 24 * j, j, #[trigger] v.symbols@[j])
}

/// The relocations of a parsed driver are the 20-byte records that follow
/// the code (which ends at `80 + code_size`, `code_size` being the `u32` at
/// byte 32): the `i`-th starts at `code_end + 20 * i`, its `offset` is the
/// little-endian `u64` there, its `addend` the `u64` 8 bytes further read
/// in two's complement, and its `kind` the `u32` 16 bytes further.
pub proof fn lemma_relocations_in_place(d: Seq<u8>, v: NemDriver, i: int)
    requires
        parsed_nem(d, v),
        0 <= i < v.relocations@.len(),
    ensures
        ({
            let o = 80 + le32(d, 32) + 20 * i;
            let r = v.relocations@[i];
            let raw = le64(d, o + 8);
            &&& r.offset == le64(d, o)
            &&& r.addend == (if raw < 0x8000_0000_0000_0000 {
                raw
            } else {
                raw - 0x1_0000_0000_0000_0000
            })
            &&& r.kind == le32(d, o + 16)
        }),
{
    assert(reloc_at(d, code_end(d) + 20 * i, v.relocations@[i]));
}

/// The code of a parsed driver is the `code_size` bytes after the 80-byte
/// header, and its symbols are the 24-byte records behind the
/// relocations: the `j`-th starts at `80 + code_size + 20 * relocations +
/// 24 * j`, with its `address` the little-endian `u64` 8 bytes in and its
/// `size` the one 16 bytes in.
pub proof fn lemma_code_and_symbols_in_place(d: Seq<u8>, v: NemDriver, j: int)
    requires
        parsed_nem(d, v),
        0 <= j < v.symbols@.len(),
    ensures
        v.code@ == d.subrange(80, 80 + le32(d, 32)),
        ({
            let o = 80 + le32(d, 32) + 20 * v.relocations@.len() + 24 * j;
            &&& o + 24 <= d.len()
            &&& v.symbols@[j].address == le64(d, o + 8)
            &&& v.symbols@[j].size == le64(d, o + 16)
        }),
{
    let nrel = v.relocations@.len() as int;
    assert(symbol_at(d, code_end(d) + 20 * nrel + 24 * j, j, v.symbols@[j]));
}

fn signed_of(v: u64) -> (r: i64)
    ensures
        r == as_signed64(v as int),
{
    if v <= 0x7fff_ffff_ffff_ffff {
        v as i64
    } else {
        let k = (0xffff_ffff_ffff_ffffu64 - v) as i64;
        -k - 1
    }
}

/// Position of the first NUL at or after `start`, minus `start`; 0 when there is none.
fn nul_terminated_len(data: &[u8], start: usize) -> (r: usize)
    requires
        start < data.len(),
    ensures
        r == name_len(data@, start as int),
        start + r <= data.len(),
{
    let mut p = start;
    while p < data.len()
        invariant
            start <= p <= data.len(),
            first_nul(data@, start as int) == first_nul(data@, p as int),
        decreases data.len() - p,
    {
        if data[p] == 0 {
            return p - start;
        }
        p = p + 1;
    }
    0
}

/// Resolves the name of the `j`-th symbol.
fn symbol_name(data: &[u8], name_off: u64, j: usize) -> (r: String)
    ensures
        r@ == spec_symbol_name(data@, name_off as int, j as int),
{
    if (name_off as u128) < (data.len() as u128) {
        let start = name_off as usize;
        let len = nul_terminated_len(data, start);
        let bytes = vstd::slice::slice_subrange(data, start, start + len);
        from_utf8_lossy(bytes)
    } else {
        let mut cs: Vec<char> = Vec::new();
        cs.push('s');
        cs.push('y');
        cs.push('m');
        cs.push('_');
        let mut digits = decimal_chars(j as u64);
        cs.append(&mut digits);
        proof {
            reveal_strlit("sym_");
        }
        let r = string_from_chars(cs.as_slice());
        assert(r@ =~= "sym_"@ + decimal(j as nat));
        r
    }
}

/// Parses a NEM v3 driver image: header, code block, then as many
/// relocations and symbols as the header announces and the input holds.
pub fn parse_nem_v3(data: &[u8]) -> (r: Option<NemDriver>)
    ensures
        r is Some <==> nem_accepts(data@),
        r matches Some(v) ==> parsed_nem(data@, v),
{
    if data.len() < 80 || data[0] != 78 || data[1] != 69 || data[2] != 77 || data[3] != 51 {
        return None;
    }
    let header = NemHeaderV3 {
        magic: [data[0], data[1], data[2], data[3]],
        abi_min: read_u16(data, 8),
        abi_target: read_u16(data, 10),
        abi_max: read_u16(data, 12),
        driver_type: read_u32(data, 16),
        category: read_u32(data, 20),
        capabilities: read_u64(data, 24),
        code_size: read_u32(data, 32),
        reloc_count: read_u32(data, 36),
        symbol_count: read_u32(data, 40),
        hst_imports: read_u32(data, 44),
    };
    let ghost d = data@;
    let code_start: usize = 80;
    if header.code_size as usize > data.len() - code_start {
        return None;
    }
    let code_end_x: usize = code_start + header.code_size as usize;
    let code = vstd::slice::slice_to_vec(vstd::slice::slice_subrange(data, code_start, code_end_x));

    let mut offset: usize = code_end_x;
    let mut relocations: Vec<NemReloc> = Vec::new();
    let mut i: u32 = 0;
    while i < header.reloc_count
        invariant
            header == spec_nem_header(d),
            d == data@,
            code_end_x == code_end(d),
            i <= header.reloc_count,
            relocations@.len() == i,
            offset == code_end(d) + 20 * i,
            offset <= data.len(),
            forall|q: int|
                0 <= q < i ==> reloc_at(d, code_end(d) + 20 * q, #[trigger] relocations@[q]),
        ensures
            i < header.reloc_count ==> offset + 20 > data.len(),
        decreases header.reloc_count - i,
    {
        if offset > data.len() || data.len() - offset < 20 {
            break;
        }
        let raw_addend = read_u64(data, offset + 8);
        relocations.push(
            NemReloc {
                offset: read_u64(data, offset),
                addend: signed_of(raw_addend),
                kind: read_u32(data, offset + 16),
            },
        );
        offset = offset + 20;
        i = i + 1;
    }

    let ghost nrel = relocations@.len() as int;
    let mut symbols: Vec<NemSymbol> = Vec::new();
    let mut j: u32 = 0;
    while j < header.symbol_count
        invariant
            header == spec_nem_header(d),
            d == data@,
            nrel == relocations@.len(),
            j <= header.symbol_count,
            symbols@.len() == j,
            offset == code_end(d) + 20 * nrel + 24 * j,
            offset <= data.len(),
            forall|q: int|
                0 <= q < j ==> symbol_at(
                    d,
                    code_end(d) + 20 * nrel + 24 * q,
                    q,
                    #[trigger] symbols@[q],
                ),
        ensures
            j < header.symbol_count ==> offset + 24 > data.len(),
        decreases header.symbol_count - j,
    {
        if data.len() - offset < 24 {
            break;
        }
        let name_off = read_u64(data, offset);
        let addr = read_u64(data, offset + 8);
        let size = read_u64(data, offset + 16);
        let name = symbol_name(data, name_off, symbols.len());
        symbols.push(NemSymbol { name, address: addr, size });
        offset = offset + 24;
        j = j + 1;
    }

    Some(NemDriver { header, code, relocations, symbols })
}

} // verus!
