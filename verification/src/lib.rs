//! A network sweep engine: it turns a target given as text into an address
//! range, cuts the range into chunks, decides step by step how one host is
//! probed, and gathers the per-host results into one ordered report.
//!
//! An address is the 32-bit value of an IPv4 address, most significant octet
//! first, held in a `u32`.

pub mod address;
pub mod network_helpers;
pub mod target;
pub mod network_core;
pub mod report;
pub mod orchestrator;
