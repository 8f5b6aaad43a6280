//! Active protocol probes used after a host has already been discovered.
//!
//! Discovery answers "is there a host?", while probes answer "what does this host
//! look like?".
use crate::addr::IpAddr;
use vstd::prelude::*;

pub mod deep;
pub mod described;
pub mod greeting;
pub mod ports;
pub mod smb;
pub mod snmp;
pub mod system;
pub mod upnp;

verus! {

/// Reports whether two addresses are of one family, so that one can be reached from
/// the other.
pub fn same_ip_family(left: IpAddr, right: IpAddr) -> (r: bool)
    ensures
        r == (left is V4 <==> right is V4),
{
    match (left, right) {
        (IpAddr::V4(_), IpAddr::V4(_)) => true,
        (IpAddr::V6(_), IpAddr::V6(_)) => true,
        _ => false,
    }
}

} // verus!
