//! What LLDP and CDP advertisements say, field by field.

use crate::addr::{IpAddr, Ipv4Addr, Ipv6Addr};
use crate::addr;
use crate::bytes;
use crate::discovery::cdp::CdpInfoView;
use crate::discovery::cdp;
use crate::discovery::lldp::LldpInfoView;
use crate::discovery::lldp;
use crate::text;
use vstd::prelude::*;

verus! {

/// A field of an advertisement.
pub struct Field {
    pub kind: u16,
    pub body: Seq<u8>,
}

/// The text starts and ends with a character that is neither white space nor NUL.
pub open spec fn clean(d: Seq<char>) -> bool {
    &&& d.len() > 0
    &&& !text::is_space(d[0]) && d[0] != '\0'
    &&& !text::is_space(d.last()) && d.last() != '\0'
}

/// A clean text is read as it is.
proof fn lemma_clean(d: Seq<char>)
    requires
        clean(d),
    ensures
        bytes::clean_text_spec(vstd::utf8::encode_utf8(d)) == Some(d),
{
    vstd::utf8::encode_utf8_valid_utf8(d);
    vstd::utf8::encode_utf8_decode_utf8(d);
    assert(text::trim_char_spec(d, '\0') == d);
    assert(text::trim_spec(d) == d);
}

/// The body of the last field of a kind that holds at least so many bytes.
pub open spec fn last_of(fields: Seq<Field>, kind: u16, least: nat) -> Option<Seq<u8>>
    decreases fields.len(),
{
    if fields.len() == 0 {
        None
    } else {
        match last_of(fields.drop_first(), kind, least) {
            Some(b) => Some(b),
            None => if fields[0].kind == kind && fields[0].body.len() >= least {
                Some(fields[0].body)
            } else {
                None
            },
        }
    }
}

/// A text is what the bytes of a field spell; without a field there is none.
pub open spec fn reads_text(told: Option<Seq<char>>, said: Option<Seq<u8>>) -> bool {
    match said {
        Some(b) => forall|d: Seq<char>|
            clean(d) && b == #[trigger] vstd::utf8::encode_utf8(d) ==> told == Some(d),
        None => told is None,
    }
}

/// A number is what exactly two bytes spell, the high one first.
pub open spec fn reads_number(told: Option<u16>, said: Option<Seq<u8>>) -> bool {
    match said {
        Some(b) => if b.len() == 2 {
            told == Some((b[0] * 256 + b[1]) as u16)
        } else {
            told is None
        },
        None => told is None,
    }
}

/// The address that four octets spell.
pub open spec fn four_octets(o: Seq<u8>) -> IpAddr {
    IpAddr::V4(
        Ipv4Addr { bits: (o[0] * 0x100_0000 + o[1] * 0x1_0000 + o[2] * 0x100 + o[3]) as u32 },
    )
}

/// The address that sixteen octets spell.
pub open spec fn sixteen_octets(o: Seq<u8>) -> IpAddr {
    IpAddr::V6(
        Ipv6Addr {
            bits: ((o[0] * 0x100 + o[1]) * 0x1_0000_0000_0000_0000_0000_0000_0000 + (o[2] * 0x100
                + o[3]) * 0x1_0000_0000_0000_0000_0000_0000 + (o[4] * 0x100 + o[5])
                * 0x1_0000_0000_0000_0000_0000 + (o[6] * 0x100 + o[7]) * 0x1_0000_0000_0000_0000
                + (o[8] * 0x100 + o[9]) * 0x1_0000_0000_0000 + (o[10] * 0x100 + o[11])
                * 0x1_0000_0000 + (o[12] * 0x100 + o[13]) * 0x1_0000 + (o[14] * 0x100
                + o[15])) as u128,
        },
    )
}

/// A family byte and octets spell an address.
pub open spec fn spells(b: Seq<u8>, ip: IpAddr) -> bool {
    (b.len() == 5 && b[0] == 1 && ip == four_octets(b.skip(1))) || (b.len() == 17 && b[0] == 2
        && ip == sixteen_octets(b.skip(1)))
}

/// The address that a family byte and octets spell.
proof fn lemma_spells(b: Seq<u8>, ip: IpAddr)
    ensures
        lldp::address_family_spec(b) == Some(ip) <==> spells(b, ip),
{
    let o = b.skip(1);
    if b.len() == 17 {
        assert forall|i: int| 0 <= i < 16 implies #[trigger] o[i] == b[i + 1] by {}
        assert(o[0] == b[1] && o[1] == b[2] && o[2] == b[3] && o[3] == b[4]);
        assert(o[4] == b[5] && o[5] == b[6] && o[6] == b[7] && o[7] == b[8]);
        assert(o[8] == b[9] && o[9] == b[10] && o[10] == b[11] && o[11] == b[12]);
        assert(o[12] == b[13] && o[13] == b[14] && o[14] == b[15] && o[15] == b[16]);
    }
}

/// A management address field holds an address: the count of the bytes that spell it,
/// then those bytes.
pub open spec fn manages(b: Seq<u8>, ip: IpAddr) -> bool {
    b.len() > 0 && b.len() > b[0] && spells(b.subrange(1, 1 + b[0]), ip)
}

/// A capability is among those whose bits are set.
pub open spec fn capable(bits: int, name: Seq<char>) -> bool {
    ||| bits % 2 == 1 && name == "other"@
    ||| bits / 2 % 2 == 1 && name == "repeater"@
    ||| bits / 4 % 2 == 1 && name == "bridge"@
    ||| bits / 8 % 2 == 1 && name == "wlan-access-point"@
    ||| bits / 16 % 2 == 1 && name == "router"@
    ||| bits / 32 % 2 == 1 && name == "telephone"@
    ||| bits / 64 % 2 == 1 && name == "docsis-cable-device"@
    ||| bits / 128 % 2 == 1 && name == "station-only"@
    ||| bits / 256 % 2 == 1 && name == "c-vlan"@
    ||| bits / 512 % 2 == 1 && name == "s-vlan"@
    ||| bits / 1024 % 2 == 1 && name == "two-port-mac-relay"@
}

/// What a list with a name appended where a condition holds has.
proof fn lemma_add_if(s: Seq<Seq<char>>, condition: bool, name: Seq<char>, x: Seq<char>)
    ensures
        bytes::add_if(s, condition, name).contains(x) <==> s.contains(x) || (condition && x
            == name),
{
    let t = bytes::add_if(s, condition, name);
    if s.contains(x) {
        let k = choose|k: int| 0 <= k < s.len() && s[k] == x;
        assert(t[k] == x);
    }
    if condition {
        assert(t[s.len() as int] == name);
        if t.contains(x) && !s.contains(x) {
            let k = choose|k: int| 0 <= k < t.len() && t[k] == x;
            if k < s.len() {
                assert(s[k] == x);
            }
        }
    }
}

/// An LLDP advertisement names exactly the capabilities whose bits are set.
pub proof fn law_lldp_capabilities_are_bits(bits: u16, x: Seq<char>)
    ensures
        lldp::capability_names_spec(bits as u32).contains(x) <==> capable(bits as int, x),
{
    let bits: u32 = bits as u32;
    let s = Seq::<Seq<char>>::empty();
    let c = lldp::bit_set(bits, 0x0001);
    lemma_add_if(s, c, "other"@, x);
    let s = bytes::add_if(s, c, "other"@);
    let c = lldp::bit_set(bits, 0x0002);
    lemma_add_if(s, c, "repeater"@, x);
    let s = bytes::add_if(s, c, "repeater"@);
    let c = lldp::bit_set(bits, 0x0004);
    lemma_add_if(s, c, "bridge"@, x);
    let s = bytes::add_if(s, c, "bridge"@);
    let c = lldp::bit_set(bits, 0x0008);
    lemma_add_if(s, c, "wlan-access-point"@, x);
    let s = bytes::add_if(s, c, "wlan-access-point"@);
    let c = lldp::bit_set(bits, 0x0010);
    lemma_add_if(s, c, "router"@, x);
    let s = bytes::add_if(s, c, "router"@);
    let c = lldp::bit_set(bits, 0x0020);
    lemma_add_if(s, c, "telephone"@, x);
    let s = bytes::add_if(s, c, "telephone"@);
    let c = lldp::bit_set(bits, 0x0040);
    lemma_add_if(s, c, "docsis-cable-device"@, x);
    let s = bytes::add_if(s, c, "docsis-cable-device"@);
    let c = lldp::bit_set(bits, 0x0080);
    lemma_add_if(s, c, "station-only"@, x);
    let s = bytes::add_if(s, c, "station-only"@);
    let c = lldp::bit_set(bits, 0x0100);
    lemma_add_if(s, c, "c-vlan"@, x);
    let s = bytes::add_if(s, c, "c-vlan"@);
    let c = lldp::bit_set(bits, 0x0200);
    lemma_add_if(s, c, "s-vlan"@, x);
    let s = bytes::add_if(s, c, "s-vlan"@);
    let c = lldp::bit_set(bits, 0x0400);
    lemma_add_if(s, c, "two-port-mac-relay"@, x);
}

/// An LLDP field on the wire: seven bits of kind, nine bits of length, and the body.
pub open spec fn lldp_field(f: Field) -> Seq<u8> {
    seq![(f.kind * 2 + f.body.len() / 256) as u8, (f.body.len() % 256) as u8] + f.body
}

/// LLDP fields on the wire.
pub open spec fn lldp_wire(fields: Seq<Field>) -> Seq<u8>
    decreases fields.len(),
{
    if fields.len() == 0 {
        seq![]
    } else {
        lldp_field(fields[0]) + lldp_wire(fields.drop_first())
    }
}

/// The fields fit on the wire, and none of them ends the advertisement.
pub open spec fn lldp_fits(fields: Seq<Field>) -> bool {
    forall|i: int|
        0 <= i < fields.len() ==> 1 <= (#[trigger] fields[i]).kind <= 127 && fields[i].body.len()
            <= 511
}

/// The bytes of an advertisement end: too few of them for a field are left, or a field of
/// kind zero comes.
pub open spec fn lldp_ends(rest: Seq<u8>) -> bool {
    rest.len() < 2 || (rest[0] == 0 && rest[1] == 0)
}

/// The address fields of a kind hold an address.
pub open spec fn managed(fields: Seq<Field>, ip: IpAddr) -> bool {
    exists|i: int|
        0 <= i < fields.len() && (#[trigger] fields[i]).kind == 8 && manages(fields[i].body, ip)
}

/// What was known, unless a field says otherwise.
spec fn said<T>(known: T, field: Option<Seq<u8>>, read: spec_fn(Seq<u8>) -> T) -> T {
    match field {
        Some(b) => read(b),
        None => known,
    }
}

/// One advertisement is another with fields added.
spec fn lldp_added(before: LldpInfoView, after: LldpInfoView, fields: Seq<Field>) -> bool {
    let texts = |b: Seq<u8>| bytes::clean_text_spec(b);
    &&& after.source_mac == before.source_mac
    &&& after.port_description == said(before.port_description, last_of(fields, 4, 0), texts)
    &&& after.system_name == said(before.system_name, last_of(fields, 5, 0), texts)
    &&& after.system_description == said(before.system_description, last_of(fields, 6, 0), texts)
    &&& after.ttl == said(
        before.ttl,
        last_of(fields, 3, 0),
        |b: Seq<u8>| bytes::exact_u16_spec(b),
    )
    &&& after.chassis_id == said(
        before.chassis_id,
        last_of(fields, 1, 1),
        |b: Seq<u8>| Some(lldp::id_spec(b, 4, 5).0),
    )
    &&& after.chassis_mac == said(
        before.chassis_mac,
        last_of(fields, 1, 1),
        |b: Seq<u8>| lldp::id_spec(b, 4, 5).1,
    )
    &&& after.chassis_id_subtype == said(
        before.chassis_id_subtype,
        last_of(fields, 1, 1),
        |b: Seq<u8>| Some(lldp::chassis_subtype_spec(b[0])),
    )
    &&& after.port_id == said(
        before.port_id,
        last_of(fields, 2, 1),
        |b: Seq<u8>| Some(lldp::id_spec(b, 3, 4).0),
    )
    &&& after.port_id_subtype == said(
        before.port_id_subtype,
        last_of(fields, 2, 1),
        |b: Seq<u8>| Some(lldp::port_subtype_spec(b[0])),
    )
    &&& after.system_capabilities == said(
        before.system_capabilities,
        last_of(fields, 7, 4),
        |b: Seq<u8>| lldp::capability_names_spec(bytes::be16_spec(b, 0) as u32),
    )
    &&& after.enabled_capabilities == said(
        before.enabled_capabilities,
        last_of(fields, 7, 4),
        |b: Seq<u8>| lldp::capability_names_spec(bytes::be16_spec(b, 2) as u32),
    )
}

/// One field.
proof fn lemma_lldp_field(before: LldpInfoView, f: Field, ip: IpAddr)
    ensures
        ({
            let after = before.with_field(f.kind, f.body);
            &&& lldp_added(before, after, seq![f])
            &&& after.management_addresses.contains(ip) <==> before.management_addresses.contains(
                ip,
            ) || (f.kind == 8 && manages(f.body, ip))
        }),
{
    reveal(LldpInfoView::with_field);
    reveal_with_fuel(last_of, 2);
    assert(seq![f].drop_first() =~= seq![]);
    let after = before.with_field(f.kind, f.body);
    if f.kind == 8 {
        match lldp::management_address_spec(f.body) {
            Some(other) => {
                let b = f.body;
                lemma_spells(b.subrange(1, 1 + b[0]), ip);
                lemma_add_address(before.management_addresses, other, ip);
            },
            None => {
                let b = f.body;
                if b.len() > 0 && b.len() > b[0] {
                    lemma_spells(b.subrange(1, 1 + b[0]), ip);
                }
            },
        }
    }
}

/// What a list with one more address has.
proof fn lemma_add_address(a: Seq<IpAddr>, other: IpAddr, ip: IpAddr)
    ensures
        addr::add_address(a, other).contains(ip) <==> a.contains(ip) || ip == other,
{
    let t = addr::add_address(a, other);
    if !a.contains(other) {
        assert(t[a.len() as int] == other);
        if a.contains(ip) {
            let k = choose|k: int| 0 <= k < a.len() && a[k] == ip;
            assert(t[k] == ip);
        }
        if t.contains(ip) && !a.contains(ip) {
            let k = choose|k: int| 0 <= k < t.len() && t[k] == ip;
            if k < a.len() {
                assert(a[k] == ip);
            }
        }
    }
}

/// Added fields add up.
proof fn lemma_lldp_added(a: LldpInfoView, b: LldpInfoView, c: LldpInfoView, fields: Seq<Field>)
    requires
        fields.len() > 0,
        lldp_added(a, b, seq![fields[0]]),
        lldp_added(b, c, fields.drop_first()),
    ensures
        lldp_added(a, c, fields),
{
    reveal_with_fuel(last_of, 2);
    assert(seq![fields[0]].drop_first() =~= seq![]);
}

/// Every field of an advertisement is added.
proof fn lemma_lldp_fields(before: LldpInfoView, fields: Seq<Field>, rest: Seq<u8>, ip: IpAddr)
    requires
        lldp_fits(fields),
        lldp_ends(rest),
    ensures
        before.with_fields(lldp_wire(fields) + rest) is Some,
        ({
            let after = before.with_fields(lldp_wire(fields) + rest)->0;
            &&& lldp_added(before, after, fields)
            &&& after.management_addresses.contains(ip) <==> before.management_addresses.contains(
                ip,
            ) || managed(fields, ip)
        }),
    decreases fields.len(),
{
    let b = lldp_wire(fields) + rest;
    if fields.len() == 0 {
        assert(b =~= rest);
    } else {
        let f = fields[0];
        let tail = fields.drop_first();
        let n = f.body.len() as int;
        let between = before.with_field(f.kind, f.body);
        assert(lldp_fits(tail)) by {
            assert forall|i: int| 0 <= i < tail.len() implies 1 <= (#[trigger] tail[i]).kind <= 127
                && tail[i].body.len() <= 511 by {
                assert(tail[i] == fields[i + 1]);
            }
        }
        assert(b =~= lldp_field(f) + (lldp_wire(tail) + rest));
        assert(b[0] == f.kind * 2 + n / 256);
        assert(b[1] == n % 256);
        assert(bytes::be16_spec(b, 0) == f.kind * 512 + n);
        assert(bytes::be16_spec(b, 0) / 512 == f.kind);
        assert(bytes::be16_spec(b, 0) as int % 512 == n);
        assert(b.subrange(2, 2 + n) =~= f.body);
        assert(b.skip(2 + n) =~= lldp_wire(tail) + rest);
        lemma_lldp_field(before, f, ip);
        lemma_lldp_fields(between, tail, rest, ip);
        let after = before.with_fields(b)->0;
        lemma_lldp_added(before, between, after, fields);
        if managed(tail, ip) {
            let i = choose|i: int|
                0 <= i < tail.len() && (#[trigger] tail[i]).kind == 8 && manages(tail[i].body, ip);
            assert(fields[i + 1] == tail[i]);
        }
        if managed(fields, ip) {
            let i = choose|i: int|
                0 <= i < fields.len() && (#[trigger] fields[i]).kind == 8 && manages(
                    fields[i].body,
                    ip,
                );
            if i > 0 {
                assert(tail[i - 1] == fields[i]);
            }
        }
    }
}

/// An identifier is what a field says: a MAC address and an address by their octets, and
/// anything else by its text.
pub open spec fn reads_id(
    told: Option<Seq<char>>,
    said: Option<Seq<u8>>,
    mac_subtype: u8,
    network_subtype: u8,
) -> bool {
    match said {
        Some(b) => {
            &&& b[0] == mac_subtype && b.len() == 7 ==> told == Some(text::colon_hex_spec(b.skip(1)))
            &&& forall|ip: IpAddr|
                b[0] == network_subtype && #[trigger] spells(b.skip(1), ip) ==> told == Some(
                    ip.text_spec(),
                )
            &&& forall|d: Seq<char>|
                b[0] != mac_subtype && b[0] != network_subtype && clean(d) && b.skip(1)
                    == #[trigger] vstd::utf8::encode_utf8(d) ==> told == Some(d)
        },
        None => told is None,
    }
}

/// The name of a chassis subtype is what its field says.
pub open spec fn reads_chassis_subtype(told: Option<Seq<char>>, said: Option<Seq<u8>>) -> bool {
    match said {
        Some(b) => {
            &&& b[0] == 1 ==> told == Some("chassis-component"@)
            &&& b[0] == 2 ==> told == Some("interface-alias"@)
            &&& b[0] == 3 ==> told == Some("port-component"@)
            &&& b[0] == 4 ==> told == Some("mac-address"@)
            &&& b[0] == 5 ==> told == Some("network-address"@)
            &&& b[0] == 6 ==> told == Some("interface-name"@)
            &&& b[0] == 7 ==> told == Some("locally-assigned"@)
            &&& b[0] == 0 || b[0] > 7 ==> told == Some("unknown"@)
        },
        None => told is None,
    }
}

/// The name of a port subtype is what its field says.
pub open spec fn reads_port_subtype(told: Option<Seq<char>>, said: Option<Seq<u8>>) -> bool {
    match said {
        Some(b) => {
            &&& b[0] == 1 ==> told == Some("interface-alias"@)
            &&& b[0] == 2 ==> told == Some("port-component"@)
            &&& b[0] == 3 ==> told == Some("mac-address"@)
            &&& b[0] == 4 ==> told == Some("network-address"@)
            &&& b[0] == 5 ==> told == Some("interface-name"@)
            &&& b[0] == 6 ==> told == Some("agent-circuit-id"@)
            &&& b[0] == 7 ==> told == Some("locally-assigned"@)
            &&& b[0] == 0 || b[0] > 7 ==> told == Some("unknown"@)
        },
        None => told is None,
    }
}

/// The capabilities are those whose bits are set in two bytes of a field.
pub open spec fn reads_capabilities(
    told: Seq<Seq<char>>,
    said: Option<Seq<u8>>,
    at: int,
) -> bool {
    match said {
        Some(b) => forall|x: Seq<char>| #[trigger]
            told.contains(x) <==> capable(b[at] * 256 + b[at + 1], x),
        None => told.len() == 0,
    }
}

/// An LLDP advertisement is what its fields say.
pub open spec fn reads_lldp(
    info: LldpInfoView,
    fields: Seq<Field>,
    source_mac: Seq<char>,
) -> bool {
    &&& info.source_mac == source_mac
    &&& reads_id(info.chassis_id, last_of(fields, 1, 1), 4, 5)
    &&& reads_chassis_subtype(info.chassis_id_subtype, last_of(fields, 1, 1))
    &&& (match last_of(fields, 1, 1) {
        Some(b) => if b[0] == 4 && b.len() == 7 {
            info.chassis_mac == Some(text::colon_hex_spec(b.skip(1)))
        } else {
            info.chassis_mac is None
        },
        None => info.chassis_mac is None,
    })
    &&& reads_id(info.port_id, last_of(fields, 2, 1), 3, 4)
    &&& reads_port_subtype(info.port_id_subtype, last_of(fields, 2, 1))
    &&& reads_number(info.ttl, last_of(fields, 3, 0))
    &&& reads_text(info.port_description, last_of(fields, 4, 0))
    &&& reads_text(info.system_name, last_of(fields, 5, 0))
    &&& reads_text(info.system_description, last_of(fields, 6, 0))
    &&& reads_capabilities(info.system_capabilities, last_of(fields, 7, 4), 0)
    &&& reads_capabilities(info.enabled_capabilities, last_of(fields, 7, 4), 2)
    &&& forall|ip: IpAddr| #[trigger]
        info.management_addresses.contains(ip) <==> managed(fields, ip)
}

/// Texts are read as they are.
proof fn lemma_reads_text(said: Seq<u8>)
    ensures
        reads_text(bytes::clean_text_spec(said), Some(said)),
{
    assert forall|d: Seq<char>|
        clean(d) && said == #[trigger] vstd::utf8::encode_utf8(d) implies bytes::clean_text_spec(
        said,
    ) == Some(d) by {
        lemma_clean(d);
    }
}

/// Identifiers are read as they are.
proof fn lemma_reads_id(b: Seq<u8>, mac_subtype: u8, network_subtype: u8)
    requires
        b.len() > 0,
        mac_subtype != network_subtype,
    ensures
        reads_id(
            Some(lldp::id_spec(b, mac_subtype, network_subtype).0),
            Some(b),
            mac_subtype,
            network_subtype,
        ),
{
    assert forall|ip: IpAddr|
        b[0] == network_subtype && #[trigger] spells(b.skip(1), ip) implies lldp::id_spec(
        b,
        mac_subtype,
        network_subtype,
    ).0 == ip.text_spec() by {
        lemma_spells(b.skip(1), ip);
    }
    assert forall|d: Seq<char>|
        b[0] != mac_subtype && b[0] != network_subtype && clean(d) && b.skip(1)
            == #[trigger] vstd::utf8::encode_utf8(d) implies lldp::id_spec(
        b,
        mac_subtype,
        network_subtype,
    ).0 == d by {
        lemma_clean(d);
    }
}

/// Capabilities are read as they are.
proof fn lemma_reads_capabilities(b: Seq<u8>, at: int)
    requires
        0 <= at,
        at + 2 <= b.len(),
    ensures
        reads_capabilities(
            lldp::capability_names_spec(bytes::be16_spec(b, at) as u32),
            Some(b),
            at,
        ),
{
    let bits = bytes::be16_spec(b, at);
    assert(bits == b[at] * 256 + b[at + 1]);
    assert forall|x: Seq<char>| #[trigger]
        lldp::capability_names_spec(bits as u32).contains(x) <==> capable(
            b[at] * 256 + b[at + 1],
            x,
        ) by {
        law_lldp_capabilities_are_bits(bits, x);
    }
}

/// The last field of a kind holds at least so many bytes.
proof fn lemma_last_of(fields: Seq<Field>, kind: u16, least: nat)
    ensures
        last_of(fields, kind, least) matches Some(b) ==> b.len() >= least,
    decreases fields.len(),
{
    if fields.len() > 0 {
        lemma_last_of(fields.drop_first(), kind, least);
    }
}

/// Every field of an LLDP advertisement is read as what it is, whatever stands beside it:
/// the last field of a kind counts, and every management address.
pub proof fn law_lldp_fields_read_back(fields: Seq<Field>, rest: Seq<u8>, source_mac: Seq<char>)
    requires
        lldp_fits(fields),
        lldp_ends(rest),
    ensures
        ({
            let read = lldp::lldp_payload_spec(lldp_wire(fields) + rest, source_mac);
            &&& read is Some ==> reads_lldp(read->0, fields, source_mac)
            &&& read is Some <==> last_of(fields, 1, 1) is Some || last_of(fields, 2, 1) is Some || (
            exists|ip: IpAddr| #[trigger] managed(fields, ip)) || (match last_of(fields, 5, 0) {
                Some(b) => bytes::clean_text_spec(b) is Some,
                None => false,
            })
        }),
{
    let start = LldpInfoView::new(source_mac);
    let b = lldp_wire(fields) + rest;
    let some_ip = IpAddr::V4(Ipv4Addr { bits: 0 });
    lemma_lldp_fields(start, fields, rest, some_ip);
    let info = start.with_fields(b)->0;
    lemma_last_of(fields, 1, 1);
    lemma_last_of(fields, 2, 1);
    lemma_last_of(fields, 7, 4);
    assert forall|ip: IpAddr| #[trigger] info.management_addresses.contains(ip) <==> managed(
        fields,
        ip,
    ) by {
        lemma_lldp_fields(start, fields, rest, ip);
    }
    assert forall|ip: IpAddr| #[trigger] managed(fields, ip) implies info.management_addresses.len()
        > 0 by {
        assert(info.management_addresses.contains(ip));
    }
    if info.management_addresses.len() > 0 {
        assert(info.management_addresses.contains(info.management_addresses[0]));
        assert(managed(fields, info.management_addresses[0]));
    }
    if last_of(fields, 1, 1) is Some {
        lemma_reads_id(last_of(fields, 1, 1)->0, 4, 5);
    }
    if last_of(fields, 2, 1) is Some {
        lemma_reads_id(last_of(fields, 2, 1)->0, 3, 4);
    }
    if last_of(fields, 4, 0) is Some {
        lemma_reads_text(last_of(fields, 4, 0)->0);
    }
    if last_of(fields, 5, 0) is Some {
        lemma_reads_text(last_of(fields, 5, 0)->0);
    }
    if last_of(fields, 6, 0) is Some {
        lemma_reads_text(last_of(fields, 6, 0)->0);
    }
    if last_of(fields, 7, 4) is Some {
        lemma_reads_capabilities(last_of(fields, 7, 4)->0, 0);
        lemma_reads_capabilities(last_of(fields, 7, 4)->0, 2);
    }
}

/// The bytes of an advertisement of a chassis, a port description, and a system
/// description read as what was written.
pub proof fn law_lldp_descriptions_read_back(
    chassis: Seq<char>,
    port_description: Seq<char>,
    system_description: Seq<char>,
    source_mac: Seq<char>,
)
    requires
        clean(chassis),
        clean(port_description),
        clean(system_description),
        vstd::utf8::encode_utf8(chassis).len() <= 510,
        vstd::utf8::encode_utf8(port_description).len() <= 511,
        vstd::utf8::encode_utf8(system_description).len() <= 511,
    ensures
        ({
            let read = lldp::lldp_payload_spec(
                lldp_field(Field { kind: 1, body: seq![7u8] + vstd::utf8::encode_utf8(chassis) })
                    + lldp_field(
                    Field { kind: 4, body: vstd::utf8::encode_utf8(port_description) },
                ) + lldp_field(
                    Field { kind: 6, body: vstd::utf8::encode_utf8(system_description) },
                ),
                source_mac,
            );
            &&& read is Some
            &&& read->0.chassis_id == Some(chassis)
            &&& read->0.port_description == Some(port_description)
            &&& read->0.system_description == Some(system_description)
            &&& read->0.system_name is None
        }),
{
    let body = seq![7u8] + vstd::utf8::encode_utf8(chassis);
    let f1 = Field { kind: 1, body };
    let f2 = Field { kind: 4, body: vstd::utf8::encode_utf8(port_description) };
    let f3 = Field { kind: 6, body: vstd::utf8::encode_utf8(system_description) };
    let fields = seq![f1, f2, f3];
    reveal_with_fuel(last_of, 4);
    reveal_with_fuel(lldp_wire, 4);
    assert(fields.drop_first() =~= seq![f2, f3]);
    assert(seq![f2, f3].drop_first() =~= seq![f3]);
    assert(seq![f3].drop_first() =~= seq![]);
    assert(lldp_wire(fields) + seq![] =~= lldp_field(f1) + lldp_field(f2) + lldp_field(f3));
    assert(body.skip(1) =~= vstd::utf8::encode_utf8(chassis));
    law_lldp_fields_read_back(fields, seq![], source_mac);
}

/// A frame carries LLDP by its type, and names its sender by the octets behind the
/// receiver's.
pub proof fn law_lldp_frame_is_its_payload(
    to: Seq<u8>,
    from: Seq<u8>,
    kind: u16,
    payload: Seq<u8>,
)
    requires
        to.len() == 6,
        from.len() == 6,
    ensures
        lldp::lldp_frame_spec(
            to + from + seq![(kind / 256) as u8, (kind % 256) as u8] + payload,
        ) == (if kind == 0x88cc {
            lldp::lldp_payload_spec(payload, text::colon_hex_spec(from))
        } else {
            None
        }),
{
    let b = to + from + seq![(kind / 256) as u8, (kind % 256) as u8] + payload;
    assert(b.subrange(6, 12) =~= from);
    assert(b.skip(14) =~= payload);
    assert(bytes::be16_spec(b, 12) == kind);
}

/// A CDP field on the wire: the kind, the length with the header, and the body.
pub open spec fn cdp_field(f: Field) -> Seq<u8> {
    seq![
        (f.kind / 256) as u8,
        (f.kind % 256) as u8,
        ((f.body.len() + 4) / 256) as u8,
        ((f.body.len() + 4) % 256) as u8,
    ] + f.body
}

/// CDP fields on the wire.
pub open spec fn cdp_wire(fields: Seq<Field>) -> Seq<u8>
    decreases fields.len(),
{
    if fields.len() == 0 {
        seq![]
    } else {
        cdp_field(fields[0]) + cdp_wire(fields.drop_first())
    }
}

/// The fields fit on the wire.
pub open spec fn cdp_fits(fields: Seq<Field>) -> bool {
    forall|i: int| 0 <= i < fields.len() ==> (#[trigger] fields[i]).body.len() <= 65531
}

/// An address record: the protocol type, the length of the protocol, the protocol, the
/// length of the address, and the address.
pub open spec fn address_record(octets: Seq<u8>) -> Seq<u8> {
    seq![1u8, 1u8, 0xccu8, 0u8, 4u8] + octets
}

/// Address records one behind the other.
pub open spec fn address_records(addresses: Seq<Seq<u8>>) -> Seq<u8>
    decreases addresses.len(),
{
    if addresses.len() == 0 {
        seq![]
    } else {
        address_record(addresses[0]) + address_records(addresses.drop_first())
    }
}

/// An address field: the count of the addresses, then a record for each.
pub open spec fn address_list(addresses: Seq<Seq<u8>>) -> Seq<u8> {
    let n = addresses.len();
    seq![
        (n / 0x100_0000) as u8,
        (n / 0x1_0000 % 0x100) as u8,
        (n / 0x100 % 0x100) as u8,
        (n % 0x100) as u8,
    ] + address_records(addresses)
}

/// The records of addresses read back.
proof fn lemma_address_records(addresses: Seq<Seq<u8>>)
    requires
        forall|i: int| 0 <= i < addresses.len() ==> (#[trigger] addresses[i]).len() == 4,
    ensures
        cdp::address_records_spec(address_records(addresses), addresses.len())
            == addresses.map_values(|o: Seq<u8>| four_octets(o)),
    decreases addresses.len(),
{
    let told = addresses.map_values(|o: Seq<u8>| four_octets(o));
    if addresses.len() == 0 {
        assert(told =~= seq![]);
    } else {
        let o = addresses[0];
        let tail = addresses.drop_first();
        let b = address_records(addresses);
        assert forall|i: int| 0 <= i < tail.len() implies (#[trigger] tail[i]).len() == 4 by {
            assert(tail[i] == addresses[i + 1]);
        }
        lemma_address_records(tail);
        assert(b =~= seq![1u8, 1u8, 0xccu8, 0u8, 4u8] + o + address_records(tail));
        assert(b[0] == 1 && b[1] == 1 && b[2] == 0xcc && b[3] == 0 && b[4] == 4);
        assert(b[5] == o[0] && b[6] == o[1] && b[7] == o[2] && b[8] == o[3]);
        assert(b.skip(9) =~= address_records(tail));
        assert(told =~= seq![four_octets(o)] + tail.map_values(|o: Seq<u8>| four_octets(o)));
    }
}

/// The addresses of a CDP address field are those that were written, in order.
pub proof fn law_cdp_addresses_read_back(addresses: Seq<Seq<u8>>)
    requires
        addresses.len() <= 0xffff_ffff,
        forall|i: int| 0 <= i < addresses.len() ==> (#[trigger] addresses[i]).len() == 4,
    ensures
        cdp::address_field_spec(address_list(addresses)) == addresses.map_values(
            |o: Seq<u8>| four_octets(o),
        ),
{
    let n = addresses.len();
    let b = address_list(addresses);
    lemma_address_records(addresses);
    assert(b.skip(4) =~= address_records(addresses));
    assert(b[0] == n / 0x100_0000);
    assert(b[1] == n / 0x1_0000 % 0x100);
    assert(b[2] == n / 0x100 % 0x100);
    assert(b[3] == n % 0x100);
    assert(n == b[0] * 0x100_0000 + b[1] * 0x1_0000 + b[2] * 0x100 + b[3]);
    assert(bytes::be32_spec(b, 0) == n);
}

/// A capability is among those whose bits are set.
pub open spec fn cdp_capable(bits: int, name: Seq<char>) -> bool {
    ||| bits % 2 == 1 && name == "router"@
    ||| bits / 2 % 2 == 1 && name == "transparent-bridge"@
    ||| bits / 4 % 2 == 1 && name == "source-route-bridge"@
    ||| bits / 8 % 2 == 1 && name == "switch"@
    ||| bits / 16 % 2 == 1 && name == "host"@
    ||| bits / 32 % 2 == 1 && name == "igmp-capable"@
    ||| bits / 64 % 2 == 1 && name == "repeater"@
    ||| bits / 128 % 2 == 1 && name == "phone"@
    ||| bits / 256 % 2 == 1 && name == "remote-management"@
    ||| bits / 512 % 2 == 1 && name == "cvta"@
    ||| bits / 1024 % 2 == 1 && name == "two-port-mac-relay"@
}

/// A CDP advertisement names exactly the capabilities whose bits are set in the four
/// bytes of its field.
pub proof fn law_cdp_capabilities_are_bits(b: Seq<u8>, x: Seq<char>)
    ensures
        cdp::capabilities_spec(b).contains(x) <==> b.len() >= 4 && cdp_capable(
            b[0] * 0x100_0000 + b[1] * 0x1_0000 + b[2] * 0x100 + b[3],
            x,
        ),
{
    if b.len() >= 4 {
        let bits = bytes::be32_spec(b, 0);
        let s = Seq::<Seq<char>>::empty();
        let c = lldp::bit_set(bits, 0x0001);
        lemma_add_if(s, c, "router"@, x);
        let s = bytes::add_if(s, c, "router"@);
        let c = lldp::bit_set(bits, 0x0002);
        lemma_add_if(s, c, "transparent-bridge"@, x);
        let s = bytes::add_if(s, c, "transparent-bridge"@);
        let c = lldp::bit_set(bits, 0x0004);
        lemma_add_if(s, c, "source-route-bridge"@, x);
        let s = bytes::add_if(s, c, "source-route-bridge"@);
        let c = lldp::bit_set(bits, 0x0008);
        lemma_add_if(s, c, "switch"@, x);
        let s = bytes::add_if(s, c, "switch"@);
        let c = lldp::bit_set(bits, 0x0010);
        lemma_add_if(s, c, "host"@, x);
        let s = bytes::add_if(s, c, "host"@);
        let c = lldp::bit_set(bits, 0x0020);
        lemma_add_if(s, c, "igmp-capable"@, x);
        let s = bytes::add_if(s, c, "igmp-capable"@);
        let c = lldp::bit_set(bits, 0x0040);
        lemma_add_if(s, c, "repeater"@, x);
        let s = bytes::add_if(s, c, "repeater"@);
        let c = lldp::bit_set(bits, 0x0080);
        lemma_add_if(s, c, "phone"@, x);
        let s = bytes::add_if(s, c, "phone"@);
        let c = lldp::bit_set(bits, 0x0100);
        lemma_add_if(s, c, "remote-management"@, x);
        let s = bytes::add_if(s, c, "remote-management"@);
        let c = lldp::bit_set(bits, 0x0200);
        lemma_add_if(s, c, "cvta"@, x);
        let s = bytes::add_if(s, c, "cvta"@);
        let c = lldp::bit_set(bits, 0x0400);
        lemma_add_if(s, c, "two-port-mac-relay"@, x);
    }
}

/// An address field of a kind holds an address.
pub open spec fn listed(fields: Seq<Field>, kind: u16, ip: IpAddr) -> bool {
    exists|i: int|
        0 <= i < fields.len() && (#[trigger] fields[i]).kind == kind && cdp::address_field_spec(
            fields[i].body,
        ).contains(ip)
}

/// One advertisement is another with fields added.
spec fn cdp_added(before: CdpInfoView, after: CdpInfoView, fields: Seq<Field>) -> bool {
    let texts = |b: Seq<u8>| bytes::clean_text_spec(b);
    &&& after.source_mac == before.source_mac
    &&& after.version == before.version
    &&& after.ttl == before.ttl
    &&& after.device_id == said(before.device_id, last_of(fields, 1, 0), texts)
    &&& after.port_id == said(before.port_id, last_of(fields, 3, 0), texts)
    &&& after.software_version == said(before.software_version, last_of(fields, 5, 0), texts)
    &&& after.platform == said(before.platform, last_of(fields, 6, 0), texts)
    &&& after.native_vlan == said(
        before.native_vlan,
        last_of(fields, 10, 0),
        |b: Seq<u8>| bytes::exact_u16_spec(b),
    )
    &&& after.duplex == said(before.duplex, last_of(fields, 11, 0), |b: Seq<u8>| cdp::duplex_spec(b))
    &&& after.capabilities == said(
        before.capabilities,
        last_of(fields, 4, 0),
        |b: Seq<u8>| cdp::capabilities_spec(b),
    )
}

/// What a list with more addresses has.
proof fn lemma_merge_addresses(a: Seq<IpAddr>, more: Seq<IpAddr>, ip: IpAddr)
    ensures
        cdp::merge_addresses_spec(a, more).contains(ip) <==> a.contains(ip) || more.contains(ip),
    decreases more.len(),
{
    if more.len() > 0 {
        let front = more.drop_last();
        lemma_merge_addresses(a, front, ip);
        lemma_add_address(cdp::merge_addresses_spec(a, front), more.last(), ip);
        assert(more[more.len() - 1] == more.last());
        if front.contains(ip) {
            let k = choose|k: int| 0 <= k < front.len() && front[k] == ip;
            assert(more[k] == ip);
        }
        if more.contains(ip) && ip != more.last() {
            let k = choose|k: int| 0 <= k < more.len() && more[k] == ip;
            assert(front[k] == ip);
        }
    }
}

/// One field.
proof fn lemma_cdp_field(before: CdpInfoView, f: Field, ip: IpAddr)
    ensures
        ({
            let after = before.with_field(f.kind, f.body);
            &&& cdp_added(before, after, seq![f])
            &&& after.addresses.contains(ip) <==> before.addresses.contains(ip) || (f.kind == 2
                && cdp::address_field_spec(f.body).contains(ip))
            &&& after.management_addresses.contains(ip) <==> before.management_addresses.contains(
                ip,
            ) || (f.kind == 22 && cdp::address_field_spec(f.body).contains(ip))
        }),
{
    reveal(CdpInfoView::with_field);
    reveal_with_fuel(last_of, 2);
    assert(seq![f].drop_first() =~= seq![]);
    lemma_merge_addresses(before.addresses, cdp::address_field_spec(f.body), ip);
    lemma_merge_addresses(before.management_addresses, cdp::address_field_spec(f.body), ip);
}

/// Added fields add up.
proof fn lemma_cdp_added(a: CdpInfoView, b: CdpInfoView, c: CdpInfoView, fields: Seq<Field>)
    requires
        fields.len() > 0,
        cdp_added(a, b, seq![fields[0]]),
        cdp_added(b, c, fields.drop_first()),
    ensures
        cdp_added(a, c, fields),
{
    reveal_with_fuel(last_of, 2);
    assert(seq![fields[0]].drop_first() =~= seq![]);
}

/// What the first field lists, or those behind it.
proof fn lemma_listed(fields: Seq<Field>, kind: u16, ip: IpAddr)
    requires
        fields.len() > 0,
    ensures
        listed(fields, kind, ip) <==> listed(fields.drop_first(), kind, ip) || (fields[0].kind
            == kind && cdp::address_field_spec(fields[0].body).contains(ip)),
{
    let tail = fields.drop_first();
    if listed(tail, kind, ip) {
        let i = choose|i: int|
            0 <= i < tail.len() && (#[trigger] tail[i]).kind == kind && cdp::address_field_spec(
                tail[i].body,
            ).contains(ip);
        assert(fields[i + 1] == tail[i]);
    }
    if listed(fields, kind, ip) {
        let i = choose|i: int|
            0 <= i < fields.len() && (#[trigger] fields[i]).kind == kind && cdp::address_field_spec(
                fields[i].body,
            ).contains(ip);
        if i > 0 {
            assert(tail[i - 1] == fields[i]);
        }
    }
}

/// Every field of an advertisement is added.
proof fn lemma_cdp_fields(before: CdpInfoView, fields: Seq<Field>, rest: Seq<u8>, ip: IpAddr)
    requires
        cdp_fits(fields),
        rest.len() < 4,
    ensures
        before.with_fields(cdp_wire(fields) + rest) is Some,
        ({
            let after = before.with_fields(cdp_wire(fields) + rest)->0;
            &&& cdp_added(before, after, fields)
            &&& after.addresses.contains(ip) <==> before.addresses.contains(ip) || listed(
                fields,
                2,
                ip,
            )
            &&& after.management_addresses.contains(ip) <==> before.management_addresses.contains(
                ip,
            ) || listed(fields, 22, ip)
        }),
    decreases fields.len(),
{
    let b = cdp_wire(fields) + rest;
    if fields.len() == 0 {
        assert(b =~= rest);
    } else {
        let f = fields[0];
        let tail = fields.drop_first();
        let n = (f.body.len() + 4) as int;
        let between = before.with_field(f.kind, f.body);
        assert(cdp_fits(tail)) by {
            assert forall|i: int| 0 <= i < tail.len() implies (#[trigger] tail[i]).body.len()
                <= 65531 by {
                assert(tail[i] == fields[i + 1]);
            }
        }
        assert(b =~= cdp_field(f) + (cdp_wire(tail) + rest));
        assert(b[0] == f.kind / 256);
        assert(b[1] == f.kind % 256);
        assert(b[2] == n / 256);
        assert(b[3] == n % 256);
        assert(bytes::be16_spec(b, 0) == f.kind);
        assert(bytes::be16_spec(b, 2) == n);
        assert(b.subrange(4, n) =~= f.body);
        assert(b.skip(n) =~= cdp_wire(tail) + rest);
        lemma_cdp_field(before, f, ip);
        lemma_cdp_fields(between, tail, rest, ip);
        let after = before.with_fields(b)->0;
        lemma_cdp_added(before, between, after, fields);
        lemma_listed(fields, 2, ip);
        lemma_listed(fields, 22, ip);
    }
}

/// A CDP advertisement is what its fields say.
pub open spec fn reads_cdp(
    info: CdpInfoView,
    fields: Seq<Field>,
    source_mac: Seq<char>,
    version: u8,
    ttl: u8,
) -> bool {
    &&& info.source_mac == source_mac
    &&& info.version == version
    &&& info.ttl == ttl
    &&& reads_text(info.device_id, last_of(fields, 1, 0))
    &&& reads_text(info.port_id, last_of(fields, 3, 0))
    &&& reads_text(info.software_version, last_of(fields, 5, 0))
    &&& reads_text(info.platform, last_of(fields, 6, 0))
    &&& reads_number(info.native_vlan, last_of(fields, 10, 0))
    &&& (match last_of(fields, 11, 0) {
        Some(b) => {
            &&& b.len() > 0 && b[0] == 0 ==> info.duplex == Some("half"@)
            &&& b.len() > 0 && b[0] == 1 ==> info.duplex == Some("full"@)
            &&& b.len() == 0 || b[0] > 1 ==> info.duplex is None
        },
        None => info.duplex is None,
    })
    &&& (match last_of(fields, 4, 0) {
        Some(b) => forall|x: Seq<char>| #[trigger]
            info.capabilities.contains(x) <==> b.len() >= 4 && cdp_capable(
                b[0] * 0x100_0000 + b[1] * 0x1_0000 + b[2] * 0x100 + b[3],
                x,
            ),
        None => info.capabilities.len() == 0,
    })
    &&& forall|ip: IpAddr| #[trigger] info.addresses.contains(ip) <==> listed(fields, 2, ip)
    &&& forall|ip: IpAddr| #[trigger]
        info.management_addresses.contains(ip) <==> listed(fields, 22, ip)
}

/// Every field of a CDP advertisement is read as what it is, whatever stands beside it:
/// the last field of a kind counts, and every address. The header gives the version and
/// the time to live; its checksum is not looked at.
pub proof fn law_cdp_fields_read_back(
    version: u8,
    ttl: u8,
    checksum: Seq<u8>,
    fields: Seq<Field>,
    rest: Seq<u8>,
    source_mac: Seq<char>,
)
    requires
        checksum.len() == 2,
        cdp_fits(fields),
        rest.len() < 4,
    ensures
        ({
            let read = cdp::cdp_payload_spec(
                seq![version, ttl] + checksum + (cdp_wire(fields) + rest),
                source_mac,
            );
            &&& read is Some ==> reads_cdp(read->0, fields, source_mac, version, ttl)
            &&& (exists|ip: IpAddr| #[trigger] listed(fields, 2, ip)) ==> read is Some
            &&& (exists|ip: IpAddr| #[trigger] listed(fields, 22, ip)) ==> read is Some
            &&& (match last_of(fields, 1, 0) {
                Some(b) => bytes::clean_text_spec(b) is Some ==> read is Some,
                None => true,
            })
            &&& (match last_of(fields, 3, 0) {
                Some(b) => bytes::clean_text_spec(b) is Some ==> read is Some,
                None => true,
            })
        }),
{
    let start = CdpInfoView::new(source_mac, version, ttl);
    let whole = seq![version, ttl] + checksum + (cdp_wire(fields) + rest);
    let b = cdp_wire(fields) + rest;
    assert(whole.skip(4) =~= b);
    assert(whole[0] == version && whole[1] == ttl);
    let some_ip = IpAddr::V4(Ipv4Addr { bits: 0 });
    lemma_cdp_fields(start, fields, rest, some_ip);
    let info = start.with_fields(b)->0;
    assert forall|ip: IpAddr| #[trigger] info.addresses.contains(ip) <==> listed(
        fields,
        2,
        ip,
    ) by {
        lemma_cdp_fields(start, fields, rest, ip);
    }
    assert forall|ip: IpAddr| #[trigger] info.management_addresses.contains(ip) <==> listed(
        fields,
        22,
        ip,
    ) by {
        lemma_cdp_fields(start, fields, rest, ip);
    }
    assert forall|ip: IpAddr| #[trigger] listed(fields, 2, ip) implies info.addresses.len() > 0 by {
        assert(info.addresses.contains(ip));
    }
    assert forall|ip: IpAddr| #[trigger] listed(fields, 22, ip) implies info.management_addresses.len()
        > 0 by {
        assert(info.management_addresses.contains(ip));
    }
    if last_of(fields, 1, 0) is Some {
        lemma_reads_text(last_of(fields, 1, 0)->0);
    }
    if last_of(fields, 3, 0) is Some {
        lemma_reads_text(last_of(fields, 3, 0)->0);
    }
    if last_of(fields, 5, 0) is Some {
        lemma_reads_text(last_of(fields, 5, 0)->0);
    }
    if last_of(fields, 6, 0) is Some {
        lemma_reads_text(last_of(fields, 6, 0)->0);
    }
    if last_of(fields, 4, 0) is Some {
        let b = last_of(fields, 4, 0)->0;
        assert forall|x: Seq<char>| #[trigger] info.capabilities.contains(x) <==> b.len() >= 4
            && cdp_capable(b[0] * 0x100_0000 + b[1] * 0x1_0000 + b[2] * 0x100 + b[3], x) by {
            law_cdp_capabilities_are_bits(b, x);
        }
    }
}

/// A frame carries CDP where it goes to the group of CDP and starts with the header that
/// announces it; the payload ends where the length of the frame says, and the sender
/// stands behind the receiver.
pub proof fn law_cdp_frame_is_its_payload(from: Seq<u8>, payload: Seq<u8>, padding: Seq<u8>)
    requires
        from.len() == 6,
        4 <= payload.len() <= 1492,
    ensures
        cdp::cdp_frame_spec(
            seq![0x01u8, 0x00u8, 0x0cu8, 0xccu8, 0xccu8, 0xccu8] + from + seq![
                ((payload.len() + 8) / 256) as u8,
                ((payload.len() + 8) % 256) as u8,
            ] + seq![0xaau8, 0xaau8, 0x03u8, 0x00u8, 0x00u8, 0x0cu8, 0x20u8, 0x00u8] + payload
                + padding,
        ) == cdp::cdp_payload_spec(payload, text::colon_hex_spec(from)),
{
    let n = (payload.len() + 8) as int;
    let b = seq![0x01u8, 0x00u8, 0x0cu8, 0xccu8, 0xccu8, 0xccu8] + from + seq![
        ((payload.len() + 8) / 256) as u8,
        ((payload.len() + 8) % 256) as u8,
    ] + seq![0xaau8, 0xaau8, 0x03u8, 0x00u8, 0x00u8, 0x0cu8, 0x20u8, 0x00u8] + payload + padding;
    assert(b.take(6) =~= cdp::cdp_multicast());
    assert(b.subrange(6, 12) =~= from);
    assert(b[12] == n / 256);
    assert(b[13] == n % 256);
    assert(bytes::be16_spec(b, 12) == n);
    assert(b.subrange(14, 22) =~= cdp::snap_header());
    assert(b.subrange(22, 14 + n) =~= payload);
}

} // verus!
