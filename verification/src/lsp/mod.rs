//! The language server: request handlers over the symbol database and the
//! open documents, and the decisions of its message loop.
pub mod handlers;
pub mod server;
