//! A serverless chat transport tunneled inside link-layer broadcast
//! frames disguised as address-resolution requests: the wire codec for
//! its logical packets, the fragmentation, reassembly and
//! de-duplication that map packets onto single frames, the presence
//! and heartbeat policy, and the session engine that turns commands
//! and received packets into events, frames and liveness decisions.
pub mod arp;
pub mod channel;
pub mod commands;
pub mod config;
pub mod engine;
pub mod error;
pub mod ether_type;
pub mod interface;
pub mod ktp;
pub mod presence;
pub mod session;
