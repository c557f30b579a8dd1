pub mod abi;
pub mod consistency;
pub mod kernel;
