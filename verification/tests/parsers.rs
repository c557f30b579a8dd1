use neodos_toolkit::parsers::elf::{parse_elf, read_u16, read_u32, read_u64};
use neodos_toolkit::parsers::neofs::{parse_superblock, SUPERBLOCK_MAGIC};
use neodos_toolkit::parsers::nem::parse_nem_v3;
use neodos_toolkit::parsers::registry::{parse_hive, HIVE_MAGIC};

fn put16(d: &mut [u8], o: usize, v: u16) {
    d[o..o + 2].copy_from_slice(&v.to_le_bytes());
}
fn put32(d: &mut [u8], o: usize, v: u32) {
    d[o..o + 4].copy_from_slice(&v.to_le_bytes());
}
fn put64(d: &mut [u8], o: usize, v: u64) {
    d[o..o + 8].copy_from_slice(&v.to_le_bytes());
}

#[test]
fn little_endian_reads() {
    let d = [1u8, 2, 3, 4, 5, 6, 7, 8];
    assert_eq!(read_u16(&d, 0), 0x0201);
    assert_eq!(read_u32(&d, 4), 0x08070605);
    assert_eq!(read_u64(&d, 0), 0x0807060504030201);
}

#[test]
fn elf_header_and_segments() {
    let mut d = vec![0u8; 64 + 56 * 2];
    d[0..4].copy_from_slice(&[0x7f, b'E', b'L', b'F']);
    put16(&mut d, 16, 2);
    put16(&mut d, 18, 0x3e);
    put64(&mut d, 24, 0x100000);
    put64(&mut d, 32, 64);
    put16(&mut d, 56, 3);
    put32(&mut d, 64, 1);
    put64(&mut d, 64 + 16, 0x200000);
    let b = parse_elf(&d).expect("valid ELF");
    assert_eq!(b.header.e_type, 2);
    assert_eq!(b.header.e_machine, 0x3e);
    assert_eq!(b.header.e_entry, 0x100000);
    assert_eq!(b.header.e_phnum, 3);
    assert_eq!(b.segments.len(), 2);
    assert_eq!(b.segments[0].p_type, 1);
    assert_eq!(b.segments[0].p_vaddr, 0x200000);
    assert!(b.sections.is_empty());
    assert_eq!(b.data, d);
}

#[test]
fn elf_section_fields_at_elf64_offsets() {
    let mut d = vec![0u8; 64 + 64];
    d[0..4].copy_from_slice(&[0x7f, b'E', b'L', b'F']);
    put64(&mut d, 40, 64);
    put16(&mut d, 58, 64);
    put16(&mut d, 60, 2);
    let o = 64;
    put32(&mut d, o, 7);
    put32(&mut d, o + 4, 1);
    put64(&mut d, o + 8, 0x6);
    put32(&mut d, o + 12, 0xdead_beef);
    put64(&mut d, o + 16, 0x0040_1000);
    put64(&mut d, o + 24, 0x1000);
    put64(&mut d, o + 32, 0x234);
    put32(&mut d, o + 40, 3);
    put32(&mut d, o + 44, 4);
    put64(&mut d, o + 48, 16);
    put64(&mut d, o + 56, 24);
    let b = parse_elf(&d).expect("valid ELF");
    assert_eq!(b.sections.len(), 1);
    let s = &b.sections[0];
    assert_eq!(s.sh_name, 7);
    assert_eq!(s.sh_type, 1);
    assert_eq!(s.sh_flags, 0xdead_beef_0000_0006);
    assert_eq!(s.sh_addr, 0x0040_1000);
    assert_eq!(s.sh_offset, 0x1000);
    assert_eq!(s.sh_size, 0x234);
    assert_eq!(s.sh_link, 3);
    assert_eq!(s.sh_info, 4);
    assert_eq!(s.sh_addralign, 16);
    assert_eq!(s.sh_entsize, 24);
}

#[test]
fn elf_rejects_short_or_bad_magic() {
    assert!(parse_elf(&[0x7f, b'E', b'L', b'F']).is_none());
    let mut d = vec![0u8; 64];
    d[0] = 0x7f;
    assert!(parse_elf(&d).is_none());
}

#[test]
fn nem_driver_with_code_and_symbol() {
    let mut d = vec![0u8; 80 + 4 + 24 + 6];
    d[0..4].copy_from_slice(b"NEM3");
    put16(&mut d, 8, 7);
    put16(&mut d, 10, 8);
    put16(&mut d, 12, 9);
    put32(&mut d, 16, 1);
    put32(&mut d, 20, 2);
    put32(&mut d, 32, 4);
    put32(&mut d, 40, 1);
    d[80..84].copy_from_slice(&[0xde, 0xad, 0xbe, 0xef]);
    let name_off = (80 + 4 + 24) as u64;
    put64(&mut d, 84, name_off);
    put64(&mut d, 92, 0x40);
    put64(&mut d, 100, 16);
    d[108..113].copy_from_slice(b"entry");
    let v = parse_nem_v3(&d).expect("valid NEM");
    assert_eq!(v.header.abi_min, 7);
    assert_eq!(v.header.abi_max, 9);
    assert_eq!(v.code, vec![0xde, 0xad, 0xbe, 0xef]);
    assert!(v.relocations.is_empty());
    assert_eq!(v.symbols.len(), 1);
    assert_eq!(v.symbols[0].name, "entry");
    assert_eq!(v.symbols[0].address, 0x40);
    assert_eq!(v.driver_type_name(), "Echo");
    assert_eq!(v.category_name(), "DEMAND");
    assert!(v.abi_compatible(8));
    assert!(!v.abi_compatible(10));
}

#[test]
fn nem_symbol_name_out_of_range_is_numbered() {
    let mut d = vec![0u8; 80 + 24];
    d[0..4].copy_from_slice(b"NEM3");
    put32(&mut d, 40, 1);
    put64(&mut d, 80, 10_000);
    let v = parse_nem_v3(&d).expect("valid NEM");
    assert_eq!(v.symbols[0].name, "sym_0");
}

#[test]
fn nem_rejects_truncated_code() {
    let mut d = vec![0u8; 80];
    d[0..4].copy_from_slice(b"NEM3");
    put32(&mut d, 32, 1);
    assert!(parse_nem_v3(&d).is_none());
}

#[test]
fn neofs_superblock() {
    let mut d = vec![0u8; 32];
    put32(&mut d, 0, SUPERBLOCK_MAGIC);
    put32(&mut d, 4, 2);
    put64(&mut d, 8, 1000);
    put64(&mut d, 16, 2);
    put64(&mut d, 24, 0x0000_1000_0000_0064);
    let sb = parse_superblock(&d).expect("superblock");
    assert_eq!(sb.version, 2);
    assert_eq!(sb.total_blocks, 1000);
    assert_eq!(sb.root_inode, 2);
    assert_eq!(sb.free_blocks, 0x0000_1000_0000_0064);
    assert_eq!(sb.block_size, 0x1000);
    assert!(parse_superblock(&d[..31]).is_none());
}

#[test]
fn registry_hive_header() {
    let mut d = vec![0u8; 16];
    put32(&mut d, 0, HIVE_MAGIC);
    put32(&mut d, 4, 1);
    put32(&mut d, 8, 5);
    put32(&mut d, 12, 0xabcd);
    let h = parse_hive(&d).expect("hive");
    assert_eq!(h.version, 1);
    assert_eq!(h.entry_count, 5);
    assert_eq!(h.checksum, 0xabcd);
    assert!(h.keys.is_empty());
    d[0] = 0;
    assert!(parse_hive(&d).is_none());
}

#[test]
fn u64_reads_back_between_other_bytes() {
    let x: u64 = 0x0123_4567_89ab_cdef;
    let mut d = vec![9u8, 8, 7];
    d.extend_from_slice(&x.to_le_bytes());
    d.extend_from_slice(&[1, 2]);
    assert_eq!(read_u64(&d, 3), x);
}
