//! A public directory of MCP endpoints, and a spider that keeps it clean.
//!
//! The directory answers MCP requests over JSON-RPC 2.0: agents submit,
//! search, list and look up endpoints; its state is a CSV file. The spider
//! probes endpoints for liveness and tools and writes the directory's data
//! format. This crate holds the logic of both; network, files and the async
//! runtime stay with the programs that use it.

pub mod clock;
pub mod csv_text;
pub mod directory;
pub mod handshake;
pub mod json;
pub mod number;
pub mod probe;
pub mod retry;
pub mod sanitize;
pub mod spider;
pub mod store;
pub mod text;
