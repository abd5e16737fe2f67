//! A multiplexed binary RPC client core: wire framing, per-channel admission
//! control and request/response correlation, written without I/O so that the
//! event loop around it only moves bytes.

pub mod frame;
pub mod admission;
pub mod correlator;
pub mod client;
pub mod response;
