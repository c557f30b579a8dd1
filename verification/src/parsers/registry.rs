//! NeoDOS registry hive (NEOH) header parser.
use vstd::prelude::*;
use crate::parsers::elf::{le32, read_u32};

verus! {

/// `NEOH` read as a little-endian `u32`.
pub const HIVE_MAGIC: u32 = 0x484F454E;

/// Kinds of cells in a hive.
#[derive(Debug, Clone, Copy, PartialEq, Eq, Structural)]
pub enum CellType {
    Free,
    Key,
    Value,
    Security,
}

/// A key cell.
#[derive(Debug, Clone)]
pub struct KeyCell {
    pub name: String,
    pub parent: u64,
    pub subkey_count: u32,
    pub value_count: u32,
}

/// A value cell.
#[derive(Debug, Clone)]
pub struct ValueCell {
    pub name: String,
    pub value_type: u32,
    pub data: Vec<u8>,
}

/// A security cell.
#[derive(Debug, Clone)]
pub struct SecurityCell {
    pub sid: Vec<u8>,
    pub acl: Vec<u8>,
}

/// A hive: its header words; the cell lists are not decoded offline.
#[derive(Debug, Clone)]
pub struct RegistryHive {
    pub magic: u32,
    pub version: u32,
    pub entry_count: u32,
    pub checksum: u32,
    pub keys: Vec<KeyCell>,
    pub values: Vec<ValueCell>,
}

/// At least 16 bytes whose first word is the hive magic.
pub open spec fn hive_accepts(d: Seq<u8>) -> bool {
    d.len() >= 16 && le32(d, 0) == HIVE_MAGIC
}

/// Parses the hive header; the key and value lists come back empty.
pub fn parse_hive(data: &[u8]) -> (r: Option<RegistryHive>)
    ensures
        r is Some <==> hive_accepts(data@),
        r matches Some(h) ==> {
            &&& h.magic == le32(data@, 0)
            &&& h.version == le32(data@, 4)
            &&& h.entry_count == le32(data@, 8)
            &&& h.checksum == le32(data@, 12)
            &&& h.keys@.len() == 0
            &&& h.values@.len() == 0
        },
{
    if data.len() < 16 {
        return None;
    }
    let magic = read_u32(data, 0);
    if magic != HIVE_MAGIC {
        return None;
    }
    Some(
        RegistryHive {
            magic,
            version: read_u32(data, 4),
            entry_count: read_u32(data, 8),
            checksum: read_u32(data, 12),
            keys: Vec::new(),
            values: Vec::new(),
        },
    )
}

} // verus!
