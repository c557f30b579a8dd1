pub mod elf;
pub mod nem;
pub mod neofs;
pub mod registry;
