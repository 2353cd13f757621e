//! The Agent Client Protocol side: JSON-RPC framing, the ACP message model
//! and the server's decisions.
//!
//! Speaks Agent Client Protocol version 1 over newline-delimited JSON-RPC 2.0.

pub mod jsonrpc;
pub mod server;
pub mod types;
