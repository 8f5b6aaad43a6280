//! Local network discovery: identity model, protocol parsers and scan rules.

pub mod addr;
pub mod ber;
pub mod bytes;
pub mod cli;
pub mod content;
pub mod dhcp;
pub mod discovery;
pub mod enrich;
pub mod identity_rules;
pub mod model;
pub mod net;
pub mod output;
pub mod probes;
pub mod same;
pub mod scanner;
pub mod sort;
pub mod store;
pub mod text;
pub mod text_map;
