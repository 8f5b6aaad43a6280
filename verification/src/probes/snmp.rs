//! Minimal SNMPv2c system-group probe.
//!
//! A single GET request asks for the system group; its answer carries stable
//! identity fields such as the name, the description, and the object identifier of
//! the device.

use crate::addr::Ipv4Addr;
use crate::addr;
use crate::ber::{decode_integer, decode_oid, decode_unsigned, expect, integer, oid, read_tlv, tlv};
use crate::ber;
use crate::text::{chars, decimal, join, parse_unsigned, signed_decimal, text, trim, utf8_lossy};
use crate::text;
use crate::text_map::{TextMap, TextMapView};
use vstd::prelude::*;

verus! {

/// The object identifier of the system description.
pub const SYS_DESCR_OID: [u32; 9] = [1, 3, 6, 1, 2, 1, 1, 1, 0];

/// The object identifier of the identity of the device.
pub const SYS_OBJECT_ID_OID: [u32; 9] = [1, 3, 6, 1, 2, 1, 1, 2, 0];

/// The object identifier of the contact.
pub const SYS_CONTACT_OID: [u32; 9] = [1, 3, 6, 1, 2, 1, 1, 4, 0];

/// The object identifier of the name.
pub const SYS_NAME_OID: [u32; 9] = [1, 3, 6, 1, 2, 1, 1, 5, 0];

/// The object identifier of the location.
pub const SYS_LOCATION_OID: [u32; 9] = [1, 3, 6, 1, 2, 1, 1, 6, 0];

/// The object identifier of the services.
pub const SYS_SERVICES_OID: [u32; 9] = [1, 3, 6, 1, 2, 1, 1, 7, 0];

/// The system group of a device.
#[derive(Debug, PartialEq, Eq)]
pub struct SnmpInfo {
    pub sys_descr: Option<String>,
    pub sys_object_id: Option<String>,
    pub sys_contact: Option<String>,
    pub sys_name: Option<String>,
    pub sys_location: Option<String>,
    pub sys_services: Option<u32>,
}

/// The mathematical content of a [`SnmpInfo`].
#[verifier::ext_equal]
pub struct SnmpInfoView {
    pub sys_descr: Option<Seq<char>>,
    pub sys_object_id: Option<Seq<char>>,
    pub sys_contact: Option<Seq<char>>,
    pub sys_name: Option<Seq<char>>,
    pub sys_location: Option<Seq<char>>,
    pub sys_services: Option<u32>,
}

impl View for SnmpInfo {
    type V = SnmpInfoView;

    open spec fn view(&self) -> SnmpInfoView {
        SnmpInfoView {
            sys_descr: self.sys_descr.deep_view(),
            sys_object_id: self.sys_object_id.deep_view(),
            sys_contact: self.sys_contact.deep_view(),
            sys_name: self.sys_name.deep_view(),
            sys_location: self.sys_location.deep_view(),
            sys_services: self.sys_services,
        }
    }
}

impl DeepView for SnmpInfo {
    type V = SnmpInfoView;

    open spec fn deep_view(&self) -> SnmpInfoView {
        self@
    }
}

impl Clone for SnmpInfo {
    fn clone(&self) -> (r: Self)
        ensures
            r@ == self@,
    {
        let r = SnmpInfo {
            sys_descr: self.sys_descr.clone(),
            sys_object_id: self.sys_object_id.clone(),
            sys_contact: self.sys_contact.clone(),
            sys_name: self.sys_name.clone(),
            sys_location: self.sys_location.clone(),
            sys_services: self.sys_services,
        };
        proof {
            assert(r.sys_descr.deep_view() =~= self.sys_descr.deep_view());
            assert(r.sys_object_id.deep_view() =~= self.sys_object_id.deep_view());
            assert(r.sys_contact.deep_view() =~= self.sys_contact.deep_view());
            assert(r.sys_name.deep_view() =~= self.sys_name.deep_view());
            assert(r.sys_location.deep_view() =~= self.sys_location.deep_view());
        }
        r
    }
}

impl Default for SnmpInfo {
    fn default() -> (r: Self)
        ensures
            r@ == (SnmpInfoView {
                sys_descr: None,
                sys_object_id: None,
                sys_contact: None,
                sys_name: None,
                sys_location: None,
                sys_services: None,
            }),
    {
        let r = SnmpInfo {
            sys_descr: None,
            sys_object_id: None,
            sys_contact: None,
            sys_name: None,
            sys_location: None,
            sys_services: None,
        };
        proof {
        }
        r
    }
}

/// The dotted form of an object identifier.
pub open spec fn oid_key_spec(parts: Seq<u32>) -> Seq<char> {
    text::join_spec(parts.map_values(|p: u32| text::decimal_spec(p as nat)), "."@)
}

/// Writes an object identifier in dotted form.
pub fn oid_key(parts: &[u32]) -> (r: String)
    ensures
        r@ == oid_key_spec(parts@),
{
    let mut out: Vec<String> = Vec::new();
    let ghost shown = parts@.map_values(|p: u32| text::decimal_spec(p as nat));
    let mut i: usize = 0;
    while i < parts.len()
        invariant
            i <= parts@.len(),
            shown == parts@.map_values(|p: u32| text::decimal_spec(p as nat)),
            out.deep_view() =~= shown.take(i as int),
        decreases parts@.len() - i,
    {
        let ghost before = out.deep_view();
        out.push(decimal(parts[i] as u64));
        proof {
            assert(out.deep_view() =~= before.push(shown[i as int]));
        }
        i = i + 1;
    }
    proof {
        assert(shown.take(i as int) =~= shown);
    }
    join(&out, ".")
}

/// A question for one object: its identifier and an empty value.
pub open spec fn varbind_bytes(parts: Seq<u32>) -> Seq<u8> {
    ber::tlv_spec(0x30, ber::tlv_spec(0x06, ber::oid_body(parts)) + ber::tlv_spec(0x05, seq![]))
}

/// Questions for several objects, one after the other.
pub open spec fn varbinds_bytes(oids: Seq<Seq<u32>>) -> Seq<u8>
    decreases oids.len(),
{
    if oids.len() == 0 {
        seq![]
    } else {
        varbinds_bytes(oids.drop_last()) + varbind_bytes(oids.last())
    }
}

/// A GET request for several objects.
pub open spec fn get_request_spec(
    request_id: i32,
    community: Seq<char>,
    oids: Seq<Seq<u32>>,
) -> Seq<u8> {
    let number = |v: int| ber::tlv_spec(0x02, ber::signed_bytes(v));
    let pdu = ber::tlv_spec(
        0xa0,
        number(request_id as int) + number(0) + number(0) + ber::tlv_spec(0x30, varbinds_bytes(oids)),
    );
    ber::tlv_spec(0x30, number(1) + ber::tlv_spec(0x04, vstd::utf8::encode_utf8(community)) + pdu)
}

/// The content of a list of identifiers.
pub open spec fn oid_views(oids: Seq<&[u32]>) -> Seq<Seq<u32>> {
    oids.map_values(|o: &[u32]| o@)
}

/// Builds a GET request for several objects.
pub fn build_get_request_for_oids(request_id: i32, community: &str, oids: &[&[u32]]) -> (r: Vec<u8>)
    requires
        forall|i: int| 0 <= i < oids@.len() ==> ber::encodable((#[trigger] oids@[i])@),
    ensures
        r@ == get_request_spec(request_id, community@, oid_views(oids@)),
{
    let ghost views = oid_views(oids@);
    let mut varbinds: Vec<u8> = Vec::new();
    let mut i: usize = 0;
    while i < oids.len()
        invariant
            i <= oids@.len(),
            views == oid_views(oids@),
            forall|i: int| 0 <= i < oids@.len() ==> ber::encodable((#[trigger] oids@[i])@),
            varbinds@ == varbinds_bytes(views.take(i as int)),
        decreases oids@.len() - i,
    {
        proof {
            assert(views.take(i + 1).drop_last() =~= views.take(i as int));
            assert(views.take(i + 1).last() == oids@[i as int]@);
        }
        let empty: Vec<u8> = Vec::new();
        let mut body: Vec<u8> = oid(oids[i]);
        let mut null: Vec<u8> = tlv(0x05, empty.as_slice());
        proof {
            assert(empty@ =~= seq![]);
        }
        body.append(&mut null);
        let mut varbind: Vec<u8> = tlv(0x30, body.as_slice());
        varbinds.append(&mut varbind);
        i = i + 1;
    }
    proof {
        assert(views.take(i as int) =~= views);
    }
    let mut list: Vec<u8> = tlv(0x30, varbinds.as_slice());
    let mut body: Vec<u8> = integer(request_id);
    let mut status: Vec<u8> = integer(0);
    let mut index: Vec<u8> = integer(0);
    body.append(&mut status);
    body.append(&mut index);
    body.append(&mut list);
    let mut pdu: Vec<u8> = tlv(0xa0, body.as_slice());
    let mut message: Vec<u8> = integer(1);
    let mut name: Vec<u8> = tlv(0x04, community.as_bytes());
    message.append(&mut name);
    message.append(&mut pdu);
    tlv(0x30, message.as_slice())
}

/// The text of a value that the system group can hold; other values, and empty
/// texts, count for nothing.
pub open spec fn value_text(tag: u8, b: Seq<u8>) -> Option<Seq<char>> {
    let t = if tag == 0x02 && b.len() > 0 {
        text::signed_decimal_spec(ber::low_64(ber::signed_value(b)))
    } else if tag == 0x04 {
        text::trim_spec(text::utf8_lossy_spec(b))
    } else if tag == 0x06 && b.len() > 0 {
        oid_key_spec(ber::oid_parts(b)->0)
    } else if tag == 0x40 && b.len() == 4 {
        Ipv4Addr { bits: addr::quad_bits(b[0], b[1], b[2], b[3]) }.text_spec()
    } else if 0x41 <= tag <= 0x46 && ber::unsigned_value(b) is Some {
        text::decimal_spec(ber::unsigned_value(b)->0)
    } else {
        seq![]
    };
    if t.len() == 0 {
        None
    } else {
        Some(t)
    }
}

/// Reads a value as text.
fn decode_value(tag: u8, b: &[u8]) -> (r: Option<String>)
    ensures
        r.deep_view() == value_text(tag, b@),
{
    let shown: Option<String> = if tag == 0x02 {
        match decode_integer(b) {
            Some(v) => Some(signed_decimal(v)),
            None => None,
        }
    } else if tag == 0x04 {
        Some(text(trim(chars(utf8_lossy(b).as_str()).as_slice())))
    } else if tag == 0x06 {
        match decode_oid(b) {
            Some(parts) => Some(oid_key(parts.as_slice())),
            None => None,
        }
    } else if tag == 0x40 && b.len() == 4 {
        Some(Ipv4Addr::new(b[0], b[1], b[2], b[3]).text())
    } else if 0x41 <= tag && tag <= 0x46 {
        match decode_unsigned(b) {
            Some(v) => Some(decimal(v)),
            None => None,
        }
    } else {
        None
    };
    match shown {
        Some(s) => if s.as_str().is_empty() {
            None
        } else {
            Some(s)
        },
        None => None,
    }
}

/// The values after a list of answers, each an identifier and a value; nothing
/// when one is malformed.
pub open spec fn with_varbinds(values: TextMapView, b: Seq<u8>) -> Option<TextMapView>
    decreases b.len(),
{
    if b.len() == 0 {
        Some(values)
    } else {
        match ber::expect_spec(b, 0x30) {
            Some((varbind, rest)) => match ber::expect_spec(varbind, 0x06) {
                Some((name, tail)) => match (ber::oid_parts(name), ber::read_tlv_spec(tail)) {
                    (Some(parts), Some((tag, value, _))) => {
                        let values = match value_text(tag, value) {
                            Some(t) => values.insert(oid_key_spec(parts), t),
                            None => values,
                        };
                        if rest.len() < b.len() {
                            with_varbinds(values, rest)
                        } else {
                            None
                        }
                    },
                    _ => None,
                },
                None => None,
            },
            None => None,
        }
    }
}

/// The byte string holds anything but zeros.
pub open spec fn has_nonzero(b: Seq<u8>) -> bool {
    exists|i: int| 0 <= i < b.len() && b[i] != 0
}

/// The list of answers in a response; nothing when the message is malformed, is no
/// response, or reports an error.
pub open spec fn response_varbinds(b: Seq<u8>) -> Option<Seq<u8>> {
    match ber::expect_spec(b, 0x30) {
        Some((message, _)) => match ber::expect_spec(message, 0x02) {
            Some((_, rest)) => match ber::expect_spec(rest, 0x04) {
                Some((_, rest)) => match ber::expect_spec(rest, 0xa2) {
                    Some((pdu, _)) => match ber::expect_spec(pdu, 0x02) {
                        Some((_, rest)) => match ber::expect_spec(rest, 0x02) {
                            Some((status, rest)) => if has_nonzero(status) {
                                None
                            } else {
                                match ber::expect_spec(rest, 0x02) {
                                    Some((_, rest)) => match ber::expect_spec(rest, 0x30) {
                                        Some((list, _)) => Some(list),
                                        None => None,
                                    },
                                    None => None,
                                }
                            },
                            None => None,
                        },
                        None => None,
                    },
                    None => None,
                },
                None => None,
            },
            None => None,
        },
        None => None,
    }
}

/// The values that a response gives, by the dotted form of their identifiers.
pub open spec fn response_values_spec(b: Seq<u8>) -> Option<TextMapView> {
    match response_varbinds(b) {
        Some(list) => with_varbinds(TextMapView { entries: seq![] }, list),
        None => None,
    }
}

/// Reports whether a byte string holds anything but zeros.
fn any_nonzero(b: &[u8]) -> (r: bool)
    ensures
        r == has_nonzero(b@),
{
    let mut i: usize = 0;
    while i < b.len()
        invariant
            i <= b@.len(),
            forall|j: int| 0 <= j < i ==> b@[j] == 0,
        decreases b@.len() - i,
    {
        if b[i] != 0 {
            return true;
        }
        i = i + 1;
    }
    false
}

/// The content of an optional byte string.
pub open spec fn bytes_opt(r: Option<&[u8]>) -> Option<Seq<u8>> {
    match r {
        Some(b) => Some(b@),
        None => None,
    }
}

/// Finds the list of answers in a response.
fn find_varbinds<'a>(b: &'a [u8]) -> (r: Option<&'a [u8]>)
    ensures
        bytes_opt(r) == response_varbinds(b@),
{
    let (message, _rest) = expect(b, 0x30)?;
    let (_version, rest) = expect(message, 0x02)?;
    let (_community, rest) = expect(rest, 0x04)?;
    let (pdu, _rest) = expect(rest, 0xa2)?;
    let (_request, rest) = expect(pdu, 0x02)?;
    let (status, rest) = expect(rest, 0x02)?;
    if any_nonzero(status) {
        return None;
    }
    let (_index, rest) = expect(rest, 0x02)?;
    let (list, _rest) = expect(rest, 0x30)?;
    Some(list)
}

/// Reads the values of a response.
pub fn parse_response_values(b: &[u8]) -> (r: Option<TextMap>)
    ensures
        r.deep_view() == response_values_spec(b@),
{
    let list = find_varbinds(b)?;
    let mut values = TextMap::default();
    let ghost start = values@;
    let mut rest = list;
    while rest.len() > 0
        invariant
            response_values_spec(b@) == with_varbinds(start, list@),
            with_varbinds(start, list@) == with_varbinds(values@, rest@),
        decreases rest@.len(),
    {
        let (varbind, next) = expect(rest, 0x30)?;
        let (name, tail) = expect(varbind, 0x06)?;
        let parts = decode_oid(name)?;
        let (tag, value, _) = read_tlv(tail)?;
        match decode_value(tag, value) {
            Some(shown) => values.insert(oid_key(parts.as_slice()), shown),
            None => {},
        }
        rest = next;
    }
    Some(values)
}

/// The system group among the values of a response; nothing when none of it is
/// there.
pub open spec fn system_info(values: TextMapView) -> Option<SnmpInfoView> {
    let info = SnmpInfoView {
        sys_descr: values.get(oid_key_spec(SYS_DESCR_OID@)),
        sys_object_id: values.get(oid_key_spec(SYS_OBJECT_ID_OID@)),
        sys_contact: values.get(oid_key_spec(SYS_CONTACT_OID@)),
        sys_name: values.get(oid_key_spec(SYS_NAME_OID@)),
        sys_location: values.get(oid_key_spec(SYS_LOCATION_OID@)),
        sys_services: match values.get(oid_key_spec(SYS_SERVICES_OID@)) {
            Some(t) => match crate::text::unsigned_value(t) {
                Some(v) if v <= u32::MAX => Some(v as u32),
                _ => None,
            },
            None => None,
        },
    };
    if info.sys_descr is Some || info.sys_object_id is Some || info.sys_contact is Some
        || info.sys_name is Some || info.sys_location is Some || info.sys_services is Some {
        Some(info)
    } else {
        None
    }
}

/// The system group that a response gives.
pub open spec fn system_response_spec(b: Seq<u8>) -> Option<SnmpInfoView> {
    match response_values_spec(b) {
        Some(values) => system_info(values),
        None => None,
    }
}

/// Reads the system group from a response.
pub fn parse_system_response(b: &[u8]) -> (r: Option<SnmpInfo>)
    ensures
        r.deep_view() == system_response_spec(b@),
{
    let values = parse_response_values(b)?;
    let sys_services: Option<u32> = match values.get(oid_key(&SYS_SERVICES_OID).as_str()) {
        Some(t) => match parse_unsigned(chars(t.as_str()).as_slice(), 0xffff_ffff) {
            Some(v) => Some(v as u32),
            None => None,
        },
        None => None,
    };
    let info = SnmpInfo {
        sys_descr: values.get(oid_key(&SYS_DESCR_OID).as_str()),
        sys_object_id: values.get(oid_key(&SYS_OBJECT_ID_OID).as_str()),
        sys_contact: values.get(oid_key(&SYS_CONTACT_OID).as_str()),
        sys_name: values.get(oid_key(&SYS_NAME_OID).as_str()),
        sys_location: values.get(oid_key(&SYS_LOCATION_OID).as_str()),
        sys_services,
    };
    if info.sys_descr.is_some() || info.sys_object_id.is_some() || info.sys_contact.is_some()
        || info.sys_name.is_some() || info.sys_location.is_some() || info.sys_services.is_some() {
        Some(info)
    } else {
        None
    }
}

/// The objects that a probe asks for.
pub open spec fn system_oids_spec() -> Seq<Seq<u32>> {
    seq![
        SYS_DESCR_OID@,
        SYS_OBJECT_ID_OID@,
        SYS_CONTACT_OID@,
        SYS_NAME_OID@,
        SYS_LOCATION_OID@,
        SYS_SERVICES_OID@,
    ]
}

/// Builds the request for the whole system group.
pub fn system_request(community: &str) -> (r: Vec<u8>)
    ensures
        r@ == get_request_spec(0x4f52_0002, community@, system_oids_spec()),
{
    let oids: [&[u32]; 6] = [
        &SYS_DESCR_OID,
        &SYS_OBJECT_ID_OID,
        &SYS_CONTACT_OID,
        &SYS_NAME_OID,
        &SYS_LOCATION_OID,
        &SYS_SERVICES_OID,
    ];
    proof {
        assert(oid_views(oids@) =~= system_oids_spec());
    }
    build_get_request_for_oids(0x4f52_0002, community, &oids)
}

} // verus!
