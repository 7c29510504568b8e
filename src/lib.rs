//! Outbound HTTP for sandboxed guests: the host side that checks and serves
//! a guest's requests through a narrow call interface over the guest's own
//! memory, and the guest side that reads the responses.

pub mod cli;
pub mod error;
pub mod guest;
pub mod header;
pub mod host;
pub mod memory;
pub mod policy;
pub mod session;
