//! The scan: what each phase adds, and how a scan goes from phase to phase.
//!
//! A scan is deliberately split into discovery first, enrichment second: ARP and
//! multicast tell which hosts exist, then protocol probes add identity evidence. Every
//! intermediate update is an event so rows can appear immediately and gain names and
//! types over time.
pub mod apply;
pub mod heard;
pub mod multi;
pub mod passive;
pub mod phases;
pub mod reports;
pub mod roster;
pub mod session;
pub mod told;
pub mod types;
