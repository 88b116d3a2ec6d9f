//! Mediation layer for a sandboxed plugin runtime.
//!
//! Untrusted plugin code may reach the filesystem and the network only
//! through the operations of this library: identifier and path validation,
//! a per-plugin key-value store, atomic plugin installation, sandboxed file
//! reading, and a bounded HTTP proxy.  The surrounding host performs the
//! actual I/O; every decision about *what* may be read, written or sent is
//! made here, under contract.

pub mod assoc;
pub mod autostart;
pub mod config;
pub mod errors;
pub mod http;
pub mod json;
pub mod reader;
pub mod registry;
pub mod storage;
pub mod text;
pub mod validate;
