//! The agent protocol server: its tools' texts and the routing of its messages.
pub mod server;
pub mod tools;
