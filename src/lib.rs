//! Core of a TCP connect-latency probe: sample statistics, per-cycle
//! averaging, address-family selection, port-list handling and the
//! command-line model, all verified.

pub mod stats;
pub mod cycle;
pub mod probe;
pub mod config;
