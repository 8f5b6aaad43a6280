//! Passive and multicast enrichment.
//!
//! These modules gather LAN identity hints that do not require a TCP session with
//! every host: OUI vendor lookup, reverse DNS, mDNS/Bonjour, and the NetBIOS name
//! service. They return raw protocol facts and leave classification to the
//! scanner and the identity rules.
pub mod answers;
pub mod mdns;
pub mod netbios;
pub mod node_status;
pub mod oui;
pub mod rdns;
