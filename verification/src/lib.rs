//! Offline tooling for NeoDOS sources and binary formats: parsers for ELF64,
//! NEM v3 drivers, NeoFS v2 superblocks and registry hives, a symbol index
//! over kernel sources, and the analyses the editor and agent front ends use.
pub mod analysis;
pub mod cache;
pub mod config;
pub mod database;
pub mod indexer;
pub mod json;
pub mod lsp;
pub mod mcp;
pub mod parsers;
pub mod text;
pub mod workspace;
