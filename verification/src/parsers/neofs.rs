//! NeoFS v2 (NE2) superblock parser.
use vstd::prelude::*;
use crate::parsers::elf::{le32, le64, read_u32, read_u64};

verus! {

pub const BLOCK_SIZE: usize = 4096;

pub const SECTOR_SIZE: usize = 512;

/// `NE2\0` read as a little-endian `u32`.
pub const SUPERBLOCK_MAGIC: u32 = 0x0032454E;

/// The NE2 superblock.
#[derive(Debug, Clone)]
pub struct SuperblockNE2 {
    pub magic: u32,
    pub version: u32,
    pub total_blocks: u64,
    pub root_inode: u64,
    pub free_blocks: u64,
    pub block_size: u32,
}

/// A directory entry of NeoFS v2.
#[derive(Debug, Clone)]
pub struct DirEntryV2 {
    pub name: String,
    pub inode: u64,
    pub mode: u16,
    pub size: u64,
}

/// What a path lookup resolves to.
#[derive(Debug, Clone)]
pub struct ResolvedInfo {
    pub inode: u64,
    pub size: u64,
    pub is_dir: bool,
}

/// At least 32 bytes whose first word is the NE2 magic.
pub open spec fn superblock_accepts(d: Seq<u8>) -> bool {
    d.len() >= 32 && le32(d, 0) == SUPERBLOCK_MAGIC
}

/// The superblock fields at their fixed offsets; `block_size` shares its
/// bytes with the upper half of `free_blocks`, as the on-disk reader does.
pub open spec fn spec_superblock(d: Seq<u8>) -> SuperblockNE2 {
    SuperblockNE2 {
        magic: le32(d, 0) as u32,
        version: le32(d, 4) as u32,
        total_blocks: le64(d, 8) as u64,
        root_inode: le64(d, 16) as u64,
        free_blocks: le64(d, 24) as u64,
        block_size: le32(d, 28) as u32,
    }
}

/// Parses the NE2 superblock at the start of `data`.
pub fn parse_superblock(data: &[u8]) -> (r: Option<SuperblockNE2>)
    ensures
        r is Some <==> superblock_accepts(data@),
        r matches Some(sb) ==> sb == spec_superblock(data@),
{
    if data.len() < 32 {
        return None;
    }
    let magic = read_u32(data, 0);
    if magic != SUPERBLOCK_MAGIC {
        return None;
    }
    Some(
        SuperblockNE2 {
            magic,
            version: read_u32(data, 4),
            total_blocks: read_u64(data, 8),
            root_inode: read_u64(data, 16),
            free_blocks: read_u64(data, 24),
            block_size: read_u32(data, 28),
        },
    )
}

} // verus!
