//! Passive LLDP frames.
//!
//! LLDP is a link-local advertisement protocol rather than a request/response
//! probe. A listener can identify adjacent switches, routers, and access points
//! when they publish a management address or when their chassis MAC matches an
//! already discovered neighbor.

use crate::addr::{address_texts, ipv6_at, push_address, IpAddr, Ipv4Addr};
use crate::addr;
use crate::bytes::{be16, clean_text, exact_u16, push_if};
use crate::bytes;
use crate::text::{colon_hex, hex_encode, join, or_empty, owned};
use crate::text;
use vstd::prelude::*;

verus! {

/// What one LLDP advertisement says of its sender.
#[derive(Debug, PartialEq, Eq)]
pub struct LldpInfo {
    pub source_mac: String,
    pub chassis_id: Option<String>,
    pub chassis_id_subtype: Option<String>,
    pub chassis_mac: Option<String>,
    pub port_id: Option<String>,
    pub port_id_subtype: Option<String>,
    pub ttl: Option<u16>,
    pub port_description: Option<String>,
    pub system_name: Option<String>,
    pub system_description: Option<String>,
    pub system_capabilities: Vec<String>,
    pub enabled_capabilities: Vec<String>,
    pub management_addresses: Vec<IpAddr>,
}

/// The mathematical content of a [`LldpInfo`].
#[verifier::ext_equal]
pub struct LldpInfoView {
    pub source_mac: Seq<char>,
    pub chassis_id: Option<Seq<char>>,
    pub chassis_id_subtype: Option<Seq<char>>,
    pub chassis_mac: Option<Seq<char>>,
    pub port_id: Option<Seq<char>>,
    pub port_id_subtype: Option<Seq<char>>,
    pub ttl: Option<u16>,
    pub port_description: Option<Seq<char>>,
    pub system_name: Option<Seq<char>>,
    pub system_description: Option<Seq<char>>,
    pub system_capabilities: Seq<Seq<char>>,
    pub enabled_capabilities: Seq<Seq<char>>,
    pub management_addresses: Seq<IpAddr>,
}

impl View for LldpInfo {
    type V = LldpInfoView;

    open spec fn view(&self) -> LldpInfoView {
        LldpInfoView {
            source_mac: self.source_mac@,
            chassis_id: self.chassis_id.deep_view(),
            chassis_id_subtype: self.chassis_id_subtype.deep_view(),
            chassis_mac: self.chassis_mac.deep_view(),
            port_id: self.port_id.deep_view(),
            port_id_subtype: self.port_id_subtype.deep_view(),
            ttl: self.ttl,
            port_description: self.port_description.deep_view(),
            system_name: self.system_name.deep_view(),
            system_description: self.system_description.deep_view(),
            system_capabilities: self.system_capabilities.deep_view(),
            enabled_capabilities: self.enabled_capabilities.deep_view(),
            management_addresses: self.management_addresses@,
        }
    }
}

impl DeepView for LldpInfo {
    type V = LldpInfoView;

    open spec fn deep_view(&self) -> LldpInfoView {
        self@
    }
}

impl Clone for LldpInfo {
    fn clone(&self) -> (r: Self)
        ensures
            r@ == self@,
    {
        let r = LldpInfo {
            source_mac: self.source_mac.clone(),
            chassis_id: self.chassis_id.clone(),
            chassis_id_subtype: self.chassis_id_subtype.clone(),
            chassis_mac: self.chassis_mac.clone(),
            port_id: self.port_id.clone(),
            port_id_subtype: self.port_id_subtype.clone(),
            ttl: self.ttl,
            port_description: self.port_description.clone(),
            system_name: self.system_name.clone(),
            system_description: self.system_description.clone(),
            system_capabilities: self.system_capabilities.clone(),
            enabled_capabilities: self.enabled_capabilities.clone(),
            management_addresses: self.management_addresses.clone(),
        };
        proof {
            assert(r.chassis_id.deep_view() =~= self.chassis_id.deep_view());
            assert(r.chassis_id_subtype.deep_view() =~= self.chassis_id_subtype.deep_view());
            assert(r.chassis_mac.deep_view() =~= self.chassis_mac.deep_view());
            assert(r.port_id.deep_view() =~= self.port_id.deep_view());
            assert(r.port_id_subtype.deep_view() =~= self.port_id_subtype.deep_view());
            assert(r.port_description.deep_view() =~= self.port_description.deep_view());
            assert(r.system_name.deep_view() =~= self.system_name.deep_view());
            assert(r.system_description.deep_view() =~= self.system_description.deep_view());
            assert(r.system_capabilities.deep_view() =~= self.system_capabilities.deep_view());
            assert(r.enabled_capabilities.deep_view() =~= self.enabled_capabilities.deep_view());
            assert(r.management_addresses@ =~= self.management_addresses@);
        }
        r
    }
}

impl LldpInfoView {
    /// An advertisement of which only the sender is known.
    pub open spec fn new(source_mac: Seq<char>) -> LldpInfoView {
        LldpInfoView {
            source_mac,
            chassis_id: None,
            chassis_id_subtype: None,
            chassis_mac: None,
            port_id: None,
            port_id_subtype: None,
            ttl: None,
            port_description: None,
            system_name: None,
            system_description: None,
            system_capabilities: seq![],
            enabled_capabilities: seq![],
            management_addresses: seq![],
        }
    }

    /// The key that tells one advertised neighbor from another.
    pub open spec fn identity_key(self) -> Seq<char> {
        text::join_spec(
            seq![
                self.source_mac,
                text::or_empty_spec(self.chassis_id),
                text::or_empty_spec(self.port_id),
                text::join_spec(addr::address_texts_spec(self.management_addresses), ","@),
            ],
            "|"@,
        )
    }

    /// The advertisement names its sender in some way.
    pub open spec fn identifies(self) -> bool {
        self.chassis_id is Some || self.port_id is Some || self.system_name is Some
            || self.management_addresses.len() > 0
    }
}

impl LldpInfo {
    /// An advertisement of which only the sender is known.
    fn new(source_mac: String) -> (r: Self)
        ensures
            r@ == LldpInfoView::new(source_mac@),
    {
        let r = LldpInfo {
            source_mac,
            chassis_id: None,
            chassis_id_subtype: None,
            chassis_mac: None,
            port_id: None,
            port_id_subtype: None,
            ttl: None,
            port_description: None,
            system_name: None,
            system_description: None,
            system_capabilities: Vec::new(),
            enabled_capabilities: Vec::new(),
            management_addresses: Vec::new(),
        };
        proof {
            assert(r.system_capabilities.deep_view() =~= seq![]);
            assert(r.enabled_capabilities.deep_view() =~= seq![]);
        }
        r
    }

    /// The key that tells one advertised neighbor from another.
    pub fn identity_key(&self) -> (r: String)
        ensures
            r@ == self@.identity_key(),
    {
        let addresses = join(&address_texts(&self.management_addresses), ",");
        let mut parts: Vec<String> = Vec::new();
        parts.push(self.source_mac.clone());
        parts.push(or_empty(&self.chassis_id));
        parts.push(or_empty(&self.port_id));
        parts.push(addresses);
        proof {
            assert(parts.deep_view() =~= seq![
                self@.source_mac,
                text::or_empty_spec(self@.chassis_id),
                text::or_empty_spec(self@.port_id),
                addresses@,
            ]);
        }
        join(&parts, "|")
    }
}

/// The name of a chassis identifier subtype.
pub open spec fn chassis_subtype_spec(subtype: u8) -> Seq<char> {
    match subtype {
        1 => "chassis-component"@,
        2 => "interface-alias"@,
        3 => "port-component"@,
        4 => "mac-address"@,
        5 => "network-address"@,
        6 => "interface-name"@,
        7 => "locally-assigned"@,
        _ => "unknown"@,
    }
}

/// The name of a port identifier subtype.
pub open spec fn port_subtype_spec(subtype: u8) -> Seq<char> {
    match subtype {
        1 => "interface-alias"@,
        2 => "port-component"@,
        3 => "mac-address"@,
        4 => "network-address"@,
        5 => "interface-name"@,
        6 => "agent-circuit-id"@,
        7 => "locally-assigned"@,
        _ => "unknown"@,
    }
}

/// Names a chassis identifier subtype.
fn chassis_subtype_name(subtype: u8) -> (r: &'static str)
    ensures
        r@ == chassis_subtype_spec(subtype),
{
    match subtype {
        1 => "chassis-component",
        2 => "interface-alias",
        3 => "port-component",
        4 => "mac-address",
        5 => "network-address",
        6 => "interface-name",
        7 => "locally-assigned",
        _ => "unknown",
    }
}

/// Names a port identifier subtype.
fn port_subtype_name(subtype: u8) -> (r: &'static str)
    ensures
        r@ == port_subtype_spec(subtype),
{
    match subtype {
        1 => "interface-alias",
        2 => "port-component",
        3 => "mac-address",
        4 => "network-address",
        5 => "interface-name",
        6 => "agent-circuit-id",
        7 => "locally-assigned",
        _ => "unknown",
    }
}

/// The address that a family byte and the octets after it spell.
pub open spec fn address_family_spec(b: Seq<u8>) -> Option<IpAddr> {
    if b.len() == 5 && b[0] == 1 {
        Some(IpAddr::V4(Ipv4Addr { bits: addr::quad_bits(b[1], b[2], b[3], b[4]) }))
    } else if b.len() == 17 && b[0] == 2 {
        Some(IpAddr::V6(addr::ipv6_at_spec(b, 1)))
    } else {
        None
    }
}

/// Reads an address that starts with its family.
fn parse_address_family(b: &[u8]) -> (r: Option<IpAddr>)
    ensures
        r == address_family_spec(b@),
{
    if b.len() == 5 && b[0] == 1 {
        Some(IpAddr::V4(Ipv4Addr::new(b[1], b[2], b[3], b[4])))
    } else if b.len() == 17 && b[0] == 2 {
        Some(IpAddr::V6(ipv6_at(b, 1)))
    } else {
        None
    }
}

/// The address in a management address field, whose first byte counts the family
/// byte and the octets that follow.
pub open spec fn management_address_spec(b: Seq<u8>) -> Option<IpAddr> {
    if b.len() == 0 || b[0] < 2 || b.len() < 1 + b[0] {
        None
    } else {
        address_family_spec(b.subrange(1, 1 + b[0]))
    }
}

/// Reads a management address field.
fn parse_management_address(b: &[u8]) -> (r: Option<IpAddr>)
    ensures
        r == management_address_spec(b@),
{
    if b.len() == 0 {
        return None;
    }
    let n: usize = b[0] as usize;
    if n < 2 || b.len() < 1 + n {
        return None;
    }
    parse_address_family(vstd::slice::slice_subrange(b, 1, 1 + n))
}

/// A text, or the hexadecimal form of the bytes where there is none.
pub open spec fn text_or_hex(o: Option<Seq<char>>, b: Seq<u8>) -> Seq<char> {
    match o {
        Some(s) => s,
        None => text::hex_spec(b),
    }
}

/// The identifier after a subtype byte, and the MAC address that it is where the
/// subtype says so.
pub open spec fn id_spec(
    b: Seq<u8>,
    mac_subtype: u8,
    network_subtype: u8,
) -> (Seq<char>, Option<Seq<char>>) {
    let body = b.skip(1);
    if b[0] == mac_subtype && body.len() == 6 {
        (text::colon_hex_spec(body), Some(text::colon_hex_spec(body)))
    } else if b[0] == network_subtype {
        match address_family_spec(body) {
            Some(ip) => (ip.text_spec(), None),
            None => (text::hex_spec(body), None),
        }
    } else {
        (text_or_hex(bytes::clean_text_spec(body), body), None)
    }
}

/// Reads an identifier after its subtype byte.
fn parse_id(b: &[u8], mac_subtype: u8, network_subtype: u8) -> (r: (String, Option<String>))
    requires
        b@.len() > 0,
    ensures
        (r.0@, r.1.deep_view()) == id_spec(b@, mac_subtype, network_subtype),
{
    let body = vstd::slice::slice_subrange(b, 1, b.len());
    proof {
        assert(body@ =~= b@.skip(1));
    }
    if b[0] == mac_subtype && body.len() == 6 {
        let mac = colon_hex(body);
        (mac.clone(), Some(mac))
    } else if b[0] == network_subtype {
        match parse_address_family(body) {
            Some(ip) => (ip.text(), None),
            None => (hex_encode(body), None),
        }
    } else {
        match clean_text(body) {
            Some(s) => (s, None),
            None => (hex_encode(body), None),
        }
    }
}

/// The bit of weight `weight` is set.
pub open spec fn bit_set(bits: u32, weight: u32) -> bool {
    bits / weight % 2 == 1
}

/// The names of the capabilities whose bits are set.
pub open spec fn capability_names_spec(bits: u32) -> Seq<Seq<char>> {
    let s = bytes::add_if(seq![], bit_set(bits, 0x0001), "other"@);
    let s = bytes::add_if(s, bit_set(bits, 0x0002), "repeater"@);
    let s = bytes::add_if(s, bit_set(bits, 0x0004), "bridge"@);
    let s = bytes::add_if(s, bit_set(bits, 0x0008), "wlan-access-point"@);
    let s = bytes::add_if(s, bit_set(bits, 0x0010), "router"@);
    let s = bytes::add_if(s, bit_set(bits, 0x0020), "telephone"@);
    let s = bytes::add_if(s, bit_set(bits, 0x0040), "docsis-cable-device"@);
    let s = bytes::add_if(s, bit_set(bits, 0x0080), "station-only"@);
    let s = bytes::add_if(s, bit_set(bits, 0x0100), "c-vlan"@);
    let s = bytes::add_if(s, bit_set(bits, 0x0200), "s-vlan"@);
    bytes::add_if(s, bit_set(bits, 0x0400), "two-port-mac-relay"@)
}

/// Names the capabilities whose bits are set.
fn capability_names(bits: u16) -> (r: Vec<String>)
    ensures
        r.deep_view() == capability_names_spec(bits as u32),
{
    let bits: u32 = bits as u32;
    let mut out: Vec<String> = Vec::new();
    proof {
        assert(out.deep_view() =~= seq![]);
    }
    push_if(&mut out, bits / 0x0001 % 2 == 1, "other");
    push_if(&mut out, bits / 0x0002 % 2 == 1, "repeater");
    push_if(&mut out, bits / 0x0004 % 2 == 1, "bridge");
    push_if(&mut out, bits / 0x0008 % 2 == 1, "wlan-access-point");
    push_if(&mut out, bits / 0x0010 % 2 == 1, "router");
    push_if(&mut out, bits / 0x0020 % 2 == 1, "telephone");
    push_if(&mut out, bits / 0x0040 % 2 == 1, "docsis-cable-device");
    push_if(&mut out, bits / 0x0080 % 2 == 1, "station-only");
    push_if(&mut out, bits / 0x0100 % 2 == 1, "c-vlan");
    push_if(&mut out, bits / 0x0200 % 2 == 1, "s-vlan");
    push_if(&mut out, bits / 0x0400 % 2 == 1, "two-port-mac-relay");
    out
}

impl LldpInfoView {
    /// The advertisement with one more field.
    #[verifier::opaque]
    pub open spec fn with_field(self, kind: u16, b: Seq<u8>) -> LldpInfoView {
        if kind == 1 && b.len() > 0 {
            let id = id_spec(b, 4, 5);
            LldpInfoView {
                chassis_id_subtype: Some(chassis_subtype_spec(b[0])),
                chassis_id: Some(id.0),
                chassis_mac: id.1,
                ..self
            }
        } else if kind == 2 && b.len() > 0 {
            LldpInfoView {
                port_id_subtype: Some(port_subtype_spec(b[0])),
                port_id: Some(id_spec(b, 3, 4).0),
                ..self
            }
        } else if kind == 3 {
            LldpInfoView { ttl: bytes::exact_u16_spec(b), ..self }
        } else if kind == 4 {
            LldpInfoView { port_description: bytes::clean_text_spec(b), ..self }
        } else if kind == 5 {
            LldpInfoView { system_name: bytes::clean_text_spec(b), ..self }
        } else if kind == 6 {
            LldpInfoView { system_description: bytes::clean_text_spec(b), ..self }
        } else if kind == 7 && b.len() >= 4 {
            LldpInfoView {
                system_capabilities: capability_names_spec(bytes::be16_spec(b, 0) as u32),
                enabled_capabilities: capability_names_spec(bytes::be16_spec(b, 2) as u32),
                ..self
            }
        } else if kind == 8 {
            match management_address_spec(b) {
                Some(ip) => LldpInfoView {
                    management_addresses: addr::add_address(self.management_addresses, ip),
                    ..self
                },
                None => self,
            }
        } else {
            self
        }
    }

    /// The advertisement with the fields of a payload added in order, up to the
    /// end field; nothing when a field runs past the payload.
    pub open spec fn with_fields(self, b: Seq<u8>) -> Option<LldpInfoView>
        decreases b.len(),
    {
        if b.len() < 2 {
            Some(self)
        } else {
            let kind = (bytes::be16_spec(b, 0) / 512) as u16;
            let n = bytes::be16_spec(b, 0) as int % 512;
            if 2 + n > b.len() {
                None
            } else if kind == 0 {
                Some(self)
            } else {
                self.with_field(kind, b.subrange(2, 2 + n)).with_fields(b.skip(2 + n))
            }
        }
    }
}

/// What a payload says of its sender: nothing when it is malformed or names no
/// sender.
pub open spec fn lldp_payload_spec(b: Seq<u8>, source_mac: Seq<char>) -> Option<LldpInfoView> {
    match LldpInfoView::new(source_mac).with_fields(b) {
        Some(info) if info.identifies() => Some(info),
        _ => None,
    }
}

/// What an Ethernet frame says of its sender, where it carries LLDP.
pub open spec fn lldp_frame_spec(b: Seq<u8>) -> Option<LldpInfoView> {
    if b.len() < 14 || bytes::be16_spec(b, 12) != 0x88cc {
        None
    } else {
        lldp_payload_spec(b.skip(14), text::colon_hex_spec(b.subrange(6, 12)))
    }
}

/// Adds one field of a payload.
fn apply_field(info: &mut LldpInfo, kind: u16, b: &[u8])
    ensures
        final(info)@ == old(info)@.with_field(kind, b@),
{
    proof {
        reveal(LldpInfoView::with_field);
    }
    if kind == 1 && b.len() > 0 {
        let (id, mac) = parse_id(b, 4, 5);
        info.chassis_id_subtype = Some(owned(chassis_subtype_name(b[0])));
        info.chassis_id = Some(id);
        info.chassis_mac = mac;
    } else if kind == 2 && b.len() > 0 {
        let (id, _mac) = parse_id(b, 3, 4);
        info.port_id_subtype = Some(owned(port_subtype_name(b[0])));
        info.port_id = Some(id);
    } else if kind == 3 {
        info.ttl = exact_u16(b);
    } else if kind == 4 {
        info.port_description = clean_text(b);
    } else if kind == 5 {
        info.system_name = clean_text(b);
    } else if kind == 6 {
        info.system_description = clean_text(b);
    } else if kind == 7 && b.len() >= 4 {
        info.system_capabilities = capability_names(be16(b, 0));
        info.enabled_capabilities = capability_names(be16(b, 2));
    } else if kind == 8 {
        match parse_management_address(b) {
            Some(ip) => push_address(&mut info.management_addresses, ip),
            None => {},
        }
    }
}

/// Reads the payload of an LLDP frame.
pub fn parse_lldp_payload(payload: &[u8], source_mac: String) -> (r: Option<LldpInfo>)
    ensures
        r.deep_view() == lldp_payload_spec(payload@, source_mac@),
{
    let ghost start = LldpInfoView::new(source_mac@);
    let mut info = LldpInfo::new(source_mac);
    let mut offset: usize = 0;
    let total: usize = payload.len();
    proof {
        assert(payload@.skip(0) =~= payload@);
    }
    while total - offset >= 2
        invariant
            offset <= total,
            total == payload@.len(),
            start == LldpInfoView::new(source_mac@),
            start.with_fields(payload@) == info@.with_fields(payload@.skip(offset as int)),
        ensures
            start.with_fields(payload@) == Some(info@),
        decreases total - offset,
    {
        let ghost rest = payload@.skip(offset as int);
        let header: u16 = be16(payload, offset);
        let kind: u16 = header / 512;
        let n: usize = (header % 512) as usize;
        proof {
            assert(bytes::be16_spec(rest, 0) == header);
        }
        if total - offset < 2 + n {
            return None;
        }
        if kind == 0 {
            break;
        }
        let value = vstd::slice::slice_subrange(payload, offset + 2, offset + 2 + n);
        proof {
            assert(value@ =~= rest.subrange(2, 2 + n));
            assert(rest.skip(2 + n) =~= payload@.skip(offset + 2 + n));
        }
        apply_field(&mut info, kind, value);
        offset = offset + 2 + n;
    }
    if info.chassis_id.is_none() && info.port_id.is_none() && info.system_name.is_none()
        && info.management_addresses.len() == 0 {
        None
    } else {
        Some(info)
    }
}

/// Reads an Ethernet frame that carries LLDP.
pub fn parse_lldp_frame(packet: &[u8]) -> (r: Option<LldpInfo>)
    ensures
        r.deep_view() == lldp_frame_spec(packet@),
{
    if packet.len() < 14 || be16(packet, 12) != 0x88cc {
        return None;
    }
    let payload = vstd::slice::slice_subrange(packet, 14, packet.len());
    proof {
        assert(payload@ =~= packet@.skip(14));
    }
    parse_lldp_payload(payload, colon_hex(vstd::slice::slice_subrange(packet, 6, 12)))
}

} // verus!
