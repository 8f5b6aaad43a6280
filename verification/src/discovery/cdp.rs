//! Passive Cisco Discovery Protocol frames.
//!
//! CDP uses 802.3 LLC/SNAP frames rather than an Ethernet II EtherType. A
//! listener looks for Cisco's SNAP protocol identifier and extracts the common
//! identity fields exposed by switches, routers, access points, and phones.

use crate::addr::{address_texts, push_address, IpAddr, Ipv4Addr};
use crate::addr;
use crate::bytes::{be16, be32, clean_text, exact_u16, push_if};
use crate::bytes;
use crate::discovery::lldp;
use crate::text::{colon_hex, join, or_empty, owned};
use crate::text;
use vstd::prelude::*;

verus! {

/// What one CDP advertisement says of its sender.
#[derive(Debug, PartialEq, Eq)]
pub struct CdpInfo {
    pub source_mac: String,
    pub version: u8,
    pub ttl: u8,
    pub device_id: Option<String>,
    pub addresses: Vec<IpAddr>,
    pub port_id: Option<String>,
    pub capabilities: Vec<String>,
    pub software_version: Option<String>,
    pub platform: Option<String>,
    pub native_vlan: Option<u16>,
    pub duplex: Option<String>,
    pub management_addresses: Vec<IpAddr>,
}

/// The mathematical content of a [`CdpInfo`].
#[verifier::ext_equal]
pub struct CdpInfoView {
    pub source_mac: Seq<char>,
    pub version: u8,
    pub ttl: u8,
    pub device_id: Option<Seq<char>>,
    pub addresses: Seq<IpAddr>,
    pub port_id: Option<Seq<char>>,
    pub capabilities: Seq<Seq<char>>,
    pub software_version: Option<Seq<char>>,
    pub platform: Option<Seq<char>>,
    pub native_vlan: Option<u16>,
    pub duplex: Option<Seq<char>>,
    pub management_addresses: Seq<IpAddr>,
}

impl View for CdpInfo {
    type V = CdpInfoView;

    open spec fn view(&self) -> CdpInfoView {
        CdpInfoView {
            source_mac: self.source_mac@,
            version: self.version,
            ttl: self.ttl,
            device_id: self.device_id.deep_view(),
            addresses: self.addresses@,
            port_id: self.port_id.deep_view(),
            capabilities: self.capabilities.deep_view(),
            software_version: self.software_version.deep_view(),
            platform: self.platform.deep_view(),
            native_vlan: self.native_vlan,
            duplex: self.duplex.deep_view(),
            management_addresses: self.management_addresses@,
        }
    }
}

impl DeepView for CdpInfo {
    type V = CdpInfoView;

    open spec fn deep_view(&self) -> CdpInfoView {
        self@
    }
}

impl Clone for CdpInfo {
    fn clone(&self) -> (r: Self)
        ensures
            r@ == self@,
    {
        let r = CdpInfo {
            source_mac: self.source_mac.clone(),
            version: self.version,
            ttl: self.ttl,
            device_id: self.device_id.clone(),
            addresses: self.addresses.clone(),
            port_id: self.port_id.clone(),
            capabilities: self.capabilities.clone(),
            software_version: self.software_version.clone(),
            platform: self.platform.clone(),
            native_vlan: self.native_vlan,
            duplex: self.duplex.clone(),
            management_addresses: self.management_addresses.clone(),
        };
        proof {
            assert(r.device_id.deep_view() =~= self.device_id.deep_view());
            assert(r.addresses@ =~= self.addresses@);
            assert(r.port_id.deep_view() =~= self.port_id.deep_view());
            assert(r.capabilities.deep_view() =~= self.capabilities.deep_view());
            assert(r.software_version.deep_view() =~= self.software_version.deep_view());
            assert(r.platform.deep_view() =~= self.platform.deep_view());
            assert(r.duplex.deep_view() =~= self.duplex.deep_view());
            assert(r.management_addresses@ =~= self.management_addresses@);
        }
        r
    }
}

impl CdpInfoView {
    /// An advertisement of which only the sender and the header are known.
    pub open spec fn new(source_mac: Seq<char>, version: u8, ttl: u8) -> CdpInfoView {
        CdpInfoView {
            source_mac,
            version,
            ttl,
            device_id: None,
            addresses: seq![],
            port_id: None,
            capabilities: seq![],
            software_version: None,
            platform: None,
            native_vlan: None,
            duplex: None,
            management_addresses: seq![],
        }
    }

    /// The key that tells one advertised neighbor from another.
    pub open spec fn identity_key(self) -> Seq<char> {
        text::join_spec(
            seq![
                self.source_mac,
                text::or_empty_spec(self.device_id),
                text::or_empty_spec(self.port_id),
                text::join_spec(addr::address_texts_spec(self.addresses + self.management_addresses), ","@),
            ],
            "|"@,
        )
    }

    /// The advertisement names its sender in some way.
    pub open spec fn identifies(self) -> bool {
        self.device_id is Some || self.port_id is Some || self.addresses.len() > 0
            || self.management_addresses.len() > 0
    }
}

impl CdpInfo {
    /// An advertisement of which only the sender and the header are known.
    fn new(source_mac: String, version: u8, ttl: u8) -> (r: Self)
        ensures
            r@ == CdpInfoView::new(source_mac@, version, ttl),
    {
        let r = CdpInfo {
            source_mac,
            version,
            ttl,
            device_id: None,
            addresses: Vec::new(),
            port_id: None,
            capabilities: Vec::new(),
            software_version: None,
            platform: None,
            native_vlan: None,
            duplex: None,
            management_addresses: Vec::new(),
        };
        proof {
            assert(r.capabilities.deep_view() =~= seq![]);
        }
        r
    }

    /// The key that tells one advertised neighbor from another.
    pub fn identity_key(&self) -> (r: String)
        ensures
            r@ == self@.identity_key(),
    {
        let mut all: Vec<IpAddr> = self.addresses.clone();
        let mut more: Vec<IpAddr> = self.management_addresses.clone();
        proof {
            assert(all@ =~= self.addresses@);
            assert(more@ =~= self.management_addresses@);
        }
        all.append(&mut more);
        let addresses = join(&address_texts(&all), ",");
        let mut parts: Vec<String> = Vec::new();
        parts.push(self.source_mac.clone());
        parts.push(or_empty(&self.device_id));
        parts.push(or_empty(&self.port_id));
        parts.push(addresses);
        proof {
            assert(all@ =~= self.addresses@ + self.management_addresses@);
            assert(parts.deep_view() =~= seq![
                self@.source_mac,
                text::or_empty_spec(self@.device_id),
                text::or_empty_spec(self@.port_id),
                addresses@,
            ]);
        }
        join(&parts, "|")
    }
}

/// The IPv4 addresses among the first `count` records of an address list. A
/// record gives the protocol, its length and its bytes, then the length and the
/// bytes of the address; the list ends early where a record runs past it.
pub open spec fn address_records_spec(b: Seq<u8>, count: nat) -> Seq<IpAddr>
    decreases count,
{
    if count == 0 || b.len() < 2 || 4 + b[1] > b.len() {
        seq![]
    } else {
        let protocol_len = b[1] as int;
        let address_len = bytes::be16_spec(b, 2 + protocol_len) as int;
        let start = 4 + protocol_len;
        if start + address_len > b.len() {
            seq![]
        } else {
            let here = if b[0] == 1 && protocol_len == 1 && b[2] == 0xcc && address_len == 4 {
                seq![
                    IpAddr::V4(
                        Ipv4Addr {
                            bits: addr::quad_bits(b[start], b[start + 1], b[start + 2], b[start + 3]),
                        },
                    ),
                ]
            } else {
                seq![]
            };
            here + address_records_spec(b.skip(start + address_len), (count - 1) as nat)
        }
    }
}

/// The IPv4 addresses of an address field, which starts with their count.
pub open spec fn address_field_spec(b: Seq<u8>) -> Seq<IpAddr> {
    if b.len() < 4 {
        seq![]
    } else {
        address_records_spec(b.skip(4), bytes::be32_spec(b, 0) as nat)
    }
}

/// Reads an address field.
fn parse_address_records(b: &[u8]) -> (r: Vec<IpAddr>)
    ensures
        r@ == address_field_spec(b@),
{
    let mut out: Vec<IpAddr> = Vec::new();
    let total: usize = b.len();
    if total < 4 {
        return out;
    }
    let count: u32 = be32(b, 0);
    let mut offset: usize = 4;
    let mut left: u32 = count;
    proof {
        assert(out@ + address_records_spec(b@.skip(4), count as nat) =~= address_field_spec(b@));
    }
    while left > 0
        invariant
            offset <= total,
            total == b@.len(),
            out@ + address_records_spec(b@.skip(offset as int), left as nat) == address_field_spec(
                b@,
            ),
        ensures
            out@ == address_field_spec(b@),
        decreases left,
    {
        let ghost rest = b@.skip(offset as int);
        let ghost before = out@;
        proof {
            assert(out@ + Seq::<IpAddr>::empty() =~= out@);
        }
        if total - offset < 2 {
            break;
        }
        let protocol_len: usize = b[offset + 1] as usize;
        if total - offset < 4 + protocol_len {
            break;
        }
        let address_len: usize = be16(b, offset + 2 + protocol_len) as usize;
        proof {
            assert(bytes::be16_spec(rest, 2 + protocol_len) == address_len);
        }
        let start: usize = 4 + protocol_len;
        if total - offset < start + address_len {
            break;
        }
        if b[offset] == 1 && protocol_len == 1 && b[offset + 2] == 0xcc && address_len == 4 {
            let at: usize = offset + start;
            out.push(IpAddr::V4(Ipv4Addr::new(b[at], b[at + 1], b[at + 2], b[at + 3])));
        }
        proof {
            let next = rest.skip(start + address_len);
            assert(next =~= b@.skip(offset + start + address_len));
            let here = if rest[0] == 1 && protocol_len == 1 && rest[2] == 0xcc && address_len == 4 {
                seq![
                    IpAddr::V4(
                        Ipv4Addr {
                            bits: addr::quad_bits(
                                rest[start as int],
                                rest[start + 1],
                                rest[start + 2],
                                rest[start + 3],
                            ),
                        },
                    ),
                ]
            } else {
                seq![]
            };
            assert(out@ =~= before + here);
            let tail = address_records_spec(next, (left - 1) as nat);
            assert(before + (here + tail) =~= out@ + tail);
        }
        offset = offset + start + address_len;
        left = left - 1;
    }
    out
}

/// A list with the addresses of another that it does not hold yet.
pub open spec fn merge_addresses_spec(a: Seq<IpAddr>, more: Seq<IpAddr>) -> Seq<IpAddr>
    decreases more.len(),
{
    if more.len() == 0 {
        a
    } else {
        addr::add_address(merge_addresses_spec(a, more.drop_last()), more.last())
    }
}

/// Appends the addresses that a list does not hold yet.
fn merge_addresses(a: &mut Vec<IpAddr>, more: &Vec<IpAddr>)
    ensures
        final(a)@ == merge_addresses_spec(old(a)@, more@),
{
    let mut i: usize = 0;
    let ghost start = a@;
    while i < more.len()
        invariant
            i <= more@.len(),
            a@ == merge_addresses_spec(start, more@.take(i as int)),
        decreases more@.len() - i,
    {
        proof {
            assert(more@.take(i + 1).drop_last() =~= more@.take(i as int));
        }
        push_address(a, more[i]);
        i = i + 1;
    }
    proof {
        assert(more@.take(i as int) =~= more@);
    }
}

/// The names of the capabilities whose bits are set.
pub open spec fn capabilities_spec(b: Seq<u8>) -> Seq<Seq<char>> {
    if b.len() < 4 {
        seq![]
    } else {
        let bits = bytes::be32_spec(b, 0);
        let s = bytes::add_if(seq![], lldp::bit_set(bits, 0x0001), "router"@);
        let s = bytes::add_if(s, lldp::bit_set(bits, 0x0002), "transparent-bridge"@);
        let s = bytes::add_if(s, lldp::bit_set(bits, 0x0004), "source-route-bridge"@);
        let s = bytes::add_if(s, lldp::bit_set(bits, 0x0008), "switch"@);
        let s = bytes::add_if(s, lldp::bit_set(bits, 0x0010), "host"@);
        let s = bytes::add_if(s, lldp::bit_set(bits, 0x0020), "igmp-capable"@);
        let s = bytes::add_if(s, lldp::bit_set(bits, 0x0040), "repeater"@);
        let s = bytes::add_if(s, lldp::bit_set(bits, 0x0080), "phone"@);
        let s = bytes::add_if(s, lldp::bit_set(bits, 0x0100), "remote-management"@);
        let s = bytes::add_if(s, lldp::bit_set(bits, 0x0200), "cvta"@);
        bytes::add_if(s, lldp::bit_set(bits, 0x0400), "two-port-mac-relay"@)
    }
}

/// Names the capabilities whose bits are set.
fn parse_capabilities(b: &[u8]) -> (r: Vec<String>)
    ensures
        r.deep_view() == capabilities_spec(b@),
{
    let mut out: Vec<String> = Vec::new();
    proof {
        assert(out.deep_view() =~= seq![]);
    }
    if b.len() < 4 {
        return out;
    }
    let bits: u32 = be32(b, 0);
    push_if(&mut out, bits / 0x0001 % 2 == 1, "router");
    push_if(&mut out, bits / 0x0002 % 2 == 1, "transparent-bridge");
    push_if(&mut out, bits / 0x0004 % 2 == 1, "source-route-bridge");
    push_if(&mut out, bits / 0x0008 % 2 == 1, "switch");
    push_if(&mut out, bits / 0x0010 % 2 == 1, "host");
    push_if(&mut out, bits / 0x0020 % 2 == 1, "igmp-capable");
    push_if(&mut out, bits / 0x0040 % 2 == 1, "repeater");
    push_if(&mut out, bits / 0x0080 % 2 == 1, "phone");
    push_if(&mut out, bits / 0x0100 % 2 == 1, "remote-management");
    push_if(&mut out, bits / 0x0200 % 2 == 1, "cvta");
    push_if(&mut out, bits / 0x0400 % 2 == 1, "two-port-mac-relay");
    out
}

/// The duplex mode that a field names.
pub open spec fn duplex_spec(b: Seq<u8>) -> Option<Seq<char>> {
    if b.len() > 0 && b[0] == 0 {
        Some("half"@)
    } else if b.len() > 0 && b[0] == 1 {
        Some("full"@)
    } else {
        None
    }
}

/// Reads a duplex field.
fn parse_duplex(b: &[u8]) -> (r: Option<String>)
    ensures
        r.deep_view() == duplex_spec(b@),
{
    if b.len() > 0 && b[0] == 0 {
        Some(owned("half"))
    } else if b.len() > 0 && b[0] == 1 {
        Some(owned("full"))
    } else {
        None
    }
}

impl CdpInfoView {
    /// The advertisement with one more field.
    #[verifier::opaque]
    pub open spec fn with_field(self, kind: u16, b: Seq<u8>) -> CdpInfoView {
        if kind == 0x0001 {
            CdpInfoView { device_id: bytes::clean_text_spec(b), ..self }
        } else if kind == 0x0002 {
            CdpInfoView {
                addresses: merge_addresses_spec(self.addresses, address_field_spec(b)),
                ..self
            }
        } else if kind == 0x0003 {
            CdpInfoView { port_id: bytes::clean_text_spec(b), ..self }
        } else if kind == 0x0004 {
            CdpInfoView { capabilities: capabilities_spec(b), ..self }
        } else if kind == 0x0005 {
            CdpInfoView { software_version: bytes::clean_text_spec(b), ..self }
        } else if kind == 0x0006 {
            CdpInfoView { platform: bytes::clean_text_spec(b), ..self }
        } else if kind == 0x000a {
            CdpInfoView { native_vlan: bytes::exact_u16_spec(b), ..self }
        } else if kind == 0x000b {
            CdpInfoView { duplex: duplex_spec(b), ..self }
        } else if kind == 0x0016 {
            CdpInfoView {
                management_addresses: merge_addresses_spec(
                    self.management_addresses,
                    address_field_spec(b),
                ),
                ..self
            }
        } else {
            self
        }
    }

    /// The advertisement with the fields of a payload added in order; nothing
    /// when a field is shorter than its header or runs past the payload.
    pub open spec fn with_fields(self, b: Seq<u8>) -> Option<CdpInfoView>
        decreases b.len(),
    {
        if b.len() < 4 {
            Some(self)
        } else {
            let n = bytes::be16_spec(b, 2) as int;
            if n < 4 || n > b.len() {
                None
            } else {
                self.with_field(bytes::be16_spec(b, 0), b.subrange(4, n)).with_fields(b.skip(n))
            }
        }
    }
}

/// What a payload says of its sender: nothing when it is malformed or names no
/// sender.
pub open spec fn cdp_payload_spec(b: Seq<u8>, source_mac: Seq<char>) -> Option<CdpInfoView> {
    if b.len() < 4 {
        None
    } else {
        match CdpInfoView::new(source_mac, b[0], b[1]).with_fields(b.skip(4)) {
            Some(info) if info.identifies() => Some(info),
            _ => None,
        }
    }
}

/// The destination of every CDP frame.
pub open spec fn cdp_multicast() -> Seq<u8> {
    seq![0x01, 0x00, 0x0c, 0xcc, 0xcc, 0xcc]
}

/// The LLC/SNAP header that announces CDP.
pub open spec fn snap_header() -> Seq<u8> {
    seq![0xaa, 0xaa, 0x03, 0x00, 0x00, 0x0c, 0x20, 0x00]
}

/// What an 802.3 frame says of its sender, where it carries CDP. The length
/// field bounds the payload, so that trailing padding is left out.
pub open spec fn cdp_frame_spec(b: Seq<u8>) -> Option<CdpInfoView> {
    if b.len() < 26 || b.take(6) != cdp_multicast() {
        None
    } else {
        let n = bytes::be16_spec(b, 12) as int;
        if n > 1500 || n < 12 || 14 + n > b.len() || b.subrange(14, 22) != snap_header() {
            None
        } else {
            cdp_payload_spec(b.subrange(22, 14 + n), text::colon_hex_spec(b.subrange(6, 12)))
        }
    }
}

/// Adds one field of a payload.
fn apply_field(info: &mut CdpInfo, kind: u16, b: &[u8])
    ensures
        final(info)@ == old(info)@.with_field(kind, b@),
{
    proof {
        reveal(CdpInfoView::with_field);
    }
    if kind == 0x0001 {
        info.device_id = clean_text(b);
    } else if kind == 0x0002 {
        let more = parse_address_records(b);
        merge_addresses(&mut info.addresses, &more);
    } else if kind == 0x0003 {
        info.port_id = clean_text(b);
    } else if kind == 0x0004 {
        info.capabilities = parse_capabilities(b);
    } else if kind == 0x0005 {
        info.software_version = clean_text(b);
    } else if kind == 0x0006 {
        info.platform = clean_text(b);
    } else if kind == 0x000a {
        info.native_vlan = exact_u16(b);
    } else if kind == 0x000b {
        info.duplex = parse_duplex(b);
    } else if kind == 0x0016 {
        let more = parse_address_records(b);
        merge_addresses(&mut info.management_addresses, &more);
    }
}

/// Reads the payload of a CDP frame.
pub fn parse_cdp_payload(payload: &[u8], source_mac: String) -> (r: Option<CdpInfo>)
    ensures
        r.deep_view() == cdp_payload_spec(payload@, source_mac@),
{
    let total: usize = payload.len();
    if total < 4 {
        return None;
    }
    let ghost start = CdpInfoView::new(source_mac@, payload@[0], payload@[1]);
    let mut info = CdpInfo::new(source_mac, payload[0], payload[1]);
    let mut offset: usize = 4;
    while total - offset >= 4
        invariant
            4 <= offset <= total,
            total == payload@.len(),
            start == CdpInfoView::new(source_mac@, payload@[0], payload@[1]),
            start.with_fields(payload@.skip(4)) == info@.with_fields(payload@.skip(offset as int)),
        decreases total - offset,
    {
        let ghost rest = payload@.skip(offset as int);
        let kind: u16 = be16(payload, offset);
        let n: usize = be16(payload, offset + 2) as usize;
        proof {
            assert(bytes::be16_spec(rest, 0) == kind);
            assert(bytes::be16_spec(rest, 2) == n);
        }
        if n < 4 || n > total - offset {
            return None;
        }
        let value = vstd::slice::slice_subrange(payload, offset + 4, offset + n);
        proof {
            assert(value@ =~= rest.subrange(4, n as int));
            assert(rest.skip(n as int) =~= payload@.skip(offset + n));
        }
        apply_field(&mut info, kind, value);
        offset = offset + n;
    }
    if info.device_id.is_none() && info.port_id.is_none() && info.addresses.len() == 0
        && info.management_addresses.len() == 0 {
        None
    } else {
        Some(info)
    }
}

/// Reads an 802.3 frame that carries CDP.
pub fn parse_cdp_frame(packet: &[u8]) -> (r: Option<CdpInfo>)
    ensures
        r.deep_view() == cdp_frame_spec(packet@),
{
    let total: usize = packet.len();
    if total < 26 {
        return None;
    }
    if packet[0] != 0x01 || packet[1] != 0x00 || packet[2] != 0x0c || packet[3] != 0xcc || packet[4]
        != 0xcc || packet[5] != 0xcc {
        proof {
            if packet@.take(6) == cdp_multicast() {
                assert(packet@.take(6)[0] == packet@[0]);
                assert(packet@.take(6)[1] == packet@[1]);
                assert(packet@.take(6)[2] == packet@[2]);
                assert(packet@.take(6)[3] == packet@[3]);
                assert(packet@.take(6)[4] == packet@[4]);
                assert(packet@.take(6)[5] == packet@[5]);
            }
        }
        return None;
    }
    proof {
        assert(packet@.take(6) =~= cdp_multicast());
    }
    let n: usize = be16(packet, 12) as usize;
    if n > 1500 || n < 12 || n > total - 14 {
        return None;
    }
    let header = vstd::slice::slice_subrange(packet, 14, 22);
    if header[0] != 0xaa || header[1] != 0xaa || header[2] != 0x03 || header[3] != 0x00 || header[4]
        != 0x00 || header[5] != 0x0c || header[6] != 0x20 || header[7] != 0x00 {
        return None;
    }
    proof {
        assert(header@ =~= snap_header());
    }
    parse_cdp_payload(
        vstd::slice::slice_subrange(packet, 22, 14 + n),
        colon_hex(vstd::slice::slice_subrange(packet, 6, 12)),
    )
}

} // verus!
