//! What mDNS answers say, record by record and host by host.

use crate::addr::{IpAddr, Ipv4Addr, Ipv6Addr};
use crate::addr;
use crate::bytes;
use crate::enrich::mdns::{MdnsHostView, MdnsInfoView, MdnsRecordView, MdnsServiceView};
use crate::enrich::mdns;
use crate::text;
use vstd::prelude::*;

verus! {

/// A name that a packet can hold and that reads back as it is: labels of 1 to 63 bytes
/// with dots between them.
pub open spec fn plain_name(name: Seq<char>) -> bool {
    &&& name.len() > 0
    &&& name.last() != '.'
    &&& forall|i: int|
        0 <= i < text::split_char_spec(name, '.').len() ==> 0 < vstd::utf8::encode_utf8(
            #[trigger] text::split_char_spec(name, '.')[i],
        ).len() <= 63
}

/// The two bytes of a number, the high one first.
pub open spec fn two_bytes(v: u16) -> Seq<u8> {
    seq![(v as int / 256) as u8, (v as int % 256) as u8]
}

/// A record as it stands in a packet: the name, the type, the class, the time to live,
/// the length of the data, and the data.
pub open spec fn wire(
    name: Seq<char>,
    kind: u16,
    class: u16,
    ttl: Seq<u8>,
    data: Seq<u8>,
) -> Seq<u8> {
    mdns::name_bytes(name) + two_bytes(kind) + two_bytes(class) + ttl + two_bytes(data.len() as u16)
        + data
}

/// A plain name is written and read as it is.
proof fn lemma_plain(front: Seq<u8>, name: Seq<char>, back: Seq<u8>)
    requires
        plain_name(name),
    ensures
        mdns::dns_name_spec(front + mdns::name_bytes(name) + back, front.len() as int) == Some(
            (name, (front.len() + mdns::name_bytes(name).len()) as int),
        ),
        mdns::normal_dns_name(name) == name,
{
    assert(text::trim_end_char_spec(name, '.') == name);
    mdns::law_written_name_reads_back(front, name, back);
}

/// Two bytes read back.
proof fn lemma_two_bytes(b: Seq<u8>, at: int, v: u16)
    requires
        0 <= at,
        at + 2 <= b.len(),
        b.subrange(at, at + 2) == two_bytes(v),
    ensures
        bytes::be16_spec(b, at) == v,
{
    assert(b[at] == b.subrange(at, at + 2)[0]);
    assert(b[at + 1] == b.subrange(at, at + 2)[1]);
}

/// Where the fields of a record stand.
proof fn lemma_wire(
    front: Seq<u8>,
    name: Seq<char>,
    kind: u16,
    class: u16,
    ttl: Seq<u8>,
    data: Seq<u8>,
    back: Seq<u8>,
    count: nat,
)
    requires
        plain_name(name),
        ttl.len() == 4,
        data.len() <= 65535,
    ensures
        ({
            let b = front + wire(name, kind, class, ttl, data) + back;
            let at = (front.len() + mdns::name_bytes(name).len() + 10) as int;
            &&& b == front + mdns::name_bytes(name) + (b.skip(at - 10))
            &&& at + data.len() + back.len() == b.len()
            &&& b.subrange(at, at + data.len()) == data
            &&& at + data.len() == front.len() + wire(name, kind, class, ttl, data).len()
            &&& mdns::records_from(b, front.len() as int, count + 1) == (match mdns::record_spec(
                b,
                name,
                kind,
                at,
                data.len() as int,
            ) {
                Some(r) => seq![r] + mdns::records_from(b, at + data.len(), count),
                None => mdns::records_from(b, at + data.len(), count),
            })
        }),
{
    let w = wire(name, kind, class, ttl, data);
    let b = front + w + back;
    let n = mdns::name_bytes(name);
    let next = (front.len() + n.len()) as int;
    let at = next + 10;
    let tail = two_bytes(kind) + two_bytes(class) + ttl + two_bytes(data.len() as u16) + data
        + back;
    assert(b =~= front + n + tail);
    assert(b.skip(next) =~= tail);
    lemma_plain(front, name, tail);
    assert(b.subrange(next, next + 2) =~= two_bytes(kind));
    lemma_two_bytes(b, next, kind);
    assert(b.subrange(next + 8, next + 10) =~= two_bytes(data.len() as u16));
    lemma_two_bytes(b, next + 8, data.len() as u16);
    assert(b.subrange(at, at + data.len()) =~= data);
}

/// An address record reads back: the host, and the address by its four octets.
pub proof fn law_address_record_reads_back(
    front: Seq<u8>,
    host: Seq<char>,
    octets: Seq<u8>,
    class: u16,
    ttl: Seq<u8>,
    back: Seq<u8>,
    count: nat,
)
    requires
        plain_name(host),
        octets.len() == 4,
        ttl.len() == 4,
    ensures
        ({
            let w = wire(host, 1, class, ttl, octets);
            let b = front + w + back;
            let bits = octets[0] * 0x100_0000 + octets[1] * 0x1_0000 + octets[2] * 0x100
                + octets[3];
            mdns::records_from(b, front.len() as int, count + 1) == seq![
                MdnsRecordView::Address {
                    host,
                    ip: IpAddr::V4(Ipv4Addr { bits: bits as u32 }),
                },
            ] + mdns::records_from(b, (front.len() + w.len()) as int, count)
        }),
{
    lemma_wire(front, host, 1, class, ttl, octets, back, count);
    lemma_plain(front, host, back);
    let b = front + wire(host, 1, class, ttl, octets) + back;
    let at = (front.len() + mdns::name_bytes(host).len() + 10) as int;
    assert forall|i: int| 0 <= i < 4 implies b[at + i] == #[trigger] octets[i] by {
        assert(b.subrange(at, at + 4)[i] == octets[i]);
    }
    assert(b[at + 0] == octets[0]);
    assert(b[at + 1] == octets[1]);
    assert(b[at + 2] == octets[2]);
    assert(b[at + 3] == octets[3]);
}

/// The number that sixteen octets spell, the first one highest.
pub open spec fn sixteen(o: Seq<u8>) -> u128 {
    ((o[0] * 0x100 + o[1]) * 0x1_0000_0000_0000_0000_0000_0000_0000 + (o[2] * 0x100 + o[3])
        * 0x1_0000_0000_0000_0000_0000_0000 + (o[4] * 0x100 + o[5])
        * 0x1_0000_0000_0000_0000_0000 + (o[6] * 0x100 + o[7]) * 0x1_0000_0000_0000_0000 + (o[8]
        * 0x100 + o[9]) * 0x1_0000_0000_0000 + (o[10] * 0x100 + o[11]) * 0x1_0000_0000 + (o[12]
        * 0x100 + o[13]) * 0x1_0000 + (o[14] * 0x100 + o[15])) as u128
}

/// An IPv6 address record reads back: the host, and the address by its sixteen octets.
pub proof fn law_long_address_record_reads_back(
    front: Seq<u8>,
    host: Seq<char>,
    octets: Seq<u8>,
    class: u16,
    ttl: Seq<u8>,
    back: Seq<u8>,
    count: nat,
)
    requires
        plain_name(host),
        octets.len() == 16,
        ttl.len() == 4,
    ensures
        ({
            let w = wire(host, 28, class, ttl, octets);
            let b = front + w + back;
            mdns::records_from(b, front.len() as int, count + 1) == seq![
                MdnsRecordView::Address {
                    host,
                    ip: IpAddr::V6(Ipv6Addr { bits: sixteen(octets) }),
                },
            ] + mdns::records_from(b, (front.len() + w.len()) as int, count)
        }),
{
    lemma_wire(front, host, 28, class, ttl, octets, back, count);
    lemma_plain(front, host, back);
    let b = front + wire(host, 28, class, ttl, octets) + back;
    let at = (front.len() + mdns::name_bytes(host).len() + 10) as int;
    assert forall|i: int| 0 <= i < 16 implies b[at + i] == #[trigger] octets[i] by {
        assert(b.subrange(at, at + 16)[i] == octets[i]);
    }
    let g = Seq::new(8, |k: int| bytes::be16_spec(b, at + 2 * k));
    assert forall|k: int| 0 <= k < 8 implies #[trigger] g[k] == octets[2 * k] * 0x100 + octets[2 * k
        + 1] by {
        assert(b[at + 2 * k] == octets[2 * k]);
        assert(b[at + (2 * k + 1)] == octets[2 * k + 1]);
    }
    assert(g[0] == octets[0] * 0x100 + octets[1]);
    assert(g[1] == octets[2] * 0x100 + octets[3]);
    assert(g[2] == octets[4] * 0x100 + octets[5]);
    assert(g[3] == octets[6] * 0x100 + octets[7]);
    assert(g[4] == octets[8] * 0x100 + octets[9]);
    assert(g[5] == octets[10] * 0x100 + octets[11]);
    assert(g[6] == octets[12] * 0x100 + octets[13]);
    assert(g[7] == octets[14] * 0x100 + octets[15]);
}

/// The data of a pointer record.
proof fn lemma_pointer(
    front: Seq<u8>,
    name: Seq<char>,
    target: Seq<char>,
    class: u16,
    ttl: Seq<u8>,
    back: Seq<u8>,
)
    requires
        plain_name(name),
        plain_name(target),
        ttl.len() == 4,
    ensures
        ({
            let data = mdns::name_bytes(target);
            let b = front + wire(name, 12, class, ttl, data) + back;
            let at = (front.len() + mdns::name_bytes(name).len() + 10) as int;
            mdns::record_spec(b, name, 12, at, data.len() as int) == Some(
                MdnsRecordView::Ptr { name, target },
            )
        }),
{
    let data = mdns::name_bytes(target);
    let b = front + wire(name, 12, class, ttl, data) + back;
    let at = (front.len() + mdns::name_bytes(name).len() + 10) as int;
    let start = b.take(at);
    assert(b.len() == at + data.len() + back.len());
    assert(start + data + back =~= b);
    lemma_plain(start, target, back);
    lemma_plain(front, name, back);
}

/// A pointer record reads back: the name and the target.
pub proof fn law_pointer_record_reads_back(
    front: Seq<u8>,
    name: Seq<char>,
    target: Seq<char>,
    class: u16,
    ttl: Seq<u8>,
    back: Seq<u8>,
    count: nat,
)
    requires
        plain_name(name),
        plain_name(target),
        mdns::name_bytes(target).len() <= 65535,
        ttl.len() == 4,
    ensures
        ({
            let w = wire(name, 12, class, ttl, mdns::name_bytes(target));
            let b = front + w + back;
            mdns::records_from(b, front.len() as int, count + 1) == seq![
                MdnsRecordView::Ptr { name, target },
            ] + mdns::records_from(b, (front.len() + w.len()) as int, count)
        }),
{
    lemma_wire(front, name, 12, class, ttl, mdns::name_bytes(target), back, count);
    lemma_pointer(front, name, target, class, ttl, back);
}

/// The data of a service record.
proof fn lemma_service(
    front: Seq<u8>,
    name: Seq<char>,
    priority: u16,
    weight: u16,
    port: u16,
    target: Seq<char>,
    class: u16,
    ttl: Seq<u8>,
    back: Seq<u8>,
)
    requires
        plain_name(name),
        plain_name(target),
        ttl.len() == 4,
    ensures
        ({
            let data = two_bytes(priority) + two_bytes(weight) + two_bytes(port)
                + mdns::name_bytes(target);
            let b = front + wire(name, 33, class, ttl, data) + back;
            let at = (front.len() + mdns::name_bytes(name).len() + 10) as int;
            mdns::record_spec(b, name, 33, at, data.len() as int) == Some(
                MdnsRecordView::Srv { name, target, port },
            )
        }),
{
    let spelled = mdns::name_bytes(target);
    let data = two_bytes(priority) + two_bytes(weight) + two_bytes(port) + spelled;
    let w = wire(name, 33, class, ttl, data);
    let b = front + w + back;
    let at = (front.len() + mdns::name_bytes(name).len() + 10) as int;
    let start = b.take(at + 6);
    assert(b.len() == at + 6 + spelled.len() + back.len());
    assert(b.subrange(at + 4, at + 6) =~= two_bytes(port));
    lemma_two_bytes(b, at + 4, port);
    assert(start + spelled + back =~= b);
    lemma_plain(start, target, back);
    lemma_plain(front, name, back);
}

/// A service record reads back: whatever its priority and its weight are, the port and
/// the target are those that were written.
pub proof fn law_service_record_reads_back(
    front: Seq<u8>,
    name: Seq<char>,
    priority: u16,
    weight: u16,
    port: u16,
    target: Seq<char>,
    class: u16,
    ttl: Seq<u8>,
    back: Seq<u8>,
    count: nat,
)
    requires
        plain_name(name),
        plain_name(target),
        mdns::name_bytes(target).len() <= 65529,
        ttl.len() == 4,
    ensures
        ({
            let data = two_bytes(priority) + two_bytes(weight) + two_bytes(port)
                + mdns::name_bytes(target);
            let w = wire(name, 33, class, ttl, data);
            let b = front + w + back;
            mdns::records_from(b, front.len() as int, count + 1) == seq![
                MdnsRecordView::Srv { name, target, port },
            ] + mdns::records_from(b, (front.len() + w.len()) as int, count)
        }),
{
    let data = two_bytes(priority) + two_bytes(weight) + two_bytes(port) + mdns::name_bytes(
        target,
    );
    lemma_wire(front, name, 33, class, ttl, data, back, count);
    lemma_service(front, name, priority, weight, port, target, class, ttl, back);
}

/// Attributes as they stand in a record: each behind its length.
pub open spec fn attributes_wire(attrs: Seq<Seq<char>>) -> Seq<u8>
    decreases attrs.len(),
{
    if attrs.len() == 0 {
        seq![]
    } else {
        let code = vstd::utf8::encode_utf8(attrs[0]);
        seq![code.len() as u8] + code + attributes_wire(attrs.drop_first())
    }
}

/// Attributes read back.
proof fn lemma_attributes(attrs: Seq<Seq<char>>)
    requires
        forall|i: int|
            0 <= i < attrs.len() ==> vstd::utf8::encode_utf8(#[trigger] attrs[i]).len() <= 255,
    ensures
        mdns::txt_strings_spec(attributes_wire(attrs)) == attrs,
    decreases attrs.len(),
{
    if attrs.len() > 0 {
        let rest = attrs.drop_first();
        let code = vstd::utf8::encode_utf8(attrs[0]);
        let b = attributes_wire(attrs);
        assert forall|i: int| 0 <= i < rest.len() implies vstd::utf8::encode_utf8(
            #[trigger] rest[i],
        ).len() <= 255 by {
            assert(rest[i] == attrs[i + 1]);
        }
        lemma_attributes(rest);
        assert(b[0] == code.len());
        assert(b.subrange(1, 1 + b[0]) =~= code);
        assert(b.skip(1 + b[0]) =~= attributes_wire(rest));
        vstd::utf8::encode_utf8_valid_utf8(attrs[0]);
        vstd::utf8::encode_utf8_decode_utf8(attrs[0]);
        assert(attrs =~= seq![attrs[0]] + rest);
    } else {
        assert(attrs =~= seq![]);
    }
}

/// A text record reads back: the name, and every attribute in order.
pub proof fn law_text_record_reads_back(
    front: Seq<u8>,
    name: Seq<char>,
    attrs: Seq<Seq<char>>,
    class: u16,
    ttl: Seq<u8>,
    back: Seq<u8>,
    count: nat,
)
    requires
        plain_name(name),
        forall|i: int|
            0 <= i < attrs.len() ==> vstd::utf8::encode_utf8(#[trigger] attrs[i]).len() <= 255,
        attributes_wire(attrs).len() <= 65535,
        ttl.len() == 4,
    ensures
        ({
            let w = wire(name, 16, class, ttl, attributes_wire(attrs));
            let b = front + w + back;
            mdns::records_from(b, front.len() as int, count + 1) == seq![
                MdnsRecordView::Txt { name, attrs },
            ] + mdns::records_from(b, (front.len() + w.len()) as int, count)
        }),
{
    lemma_wire(front, name, 16, class, ttl, attributes_wire(attrs), back, count);
    lemma_plain(front, name, back);
    lemma_attributes(attrs);
}

/// A packet without questions is read from behind its header, through its answers, its
/// authority section, and its additional section.
pub proof fn law_packet_is_read_from_behind_its_header(
    id: u16,
    flags: u16,
    answers: u16,
    authority: u16,
    additional: u16,
    body: Seq<u8>,
)
    ensures
        ({
            let b = two_bytes(id) + two_bytes(flags) + two_bytes(0) + two_bytes(answers)
                + two_bytes(authority) + two_bytes(additional) + body;
            mdns::mdns_packet_spec(b) == mdns::records_from(
                b,
                12,
                (answers + authority + additional) as nat,
            )
        }),
{
    let b = two_bytes(id) + two_bytes(flags) + two_bytes(0) + two_bytes(answers) + two_bytes(
        authority,
    ) + two_bytes(additional) + body;
    assert(b.subrange(4, 6) =~= two_bytes(0));
    lemma_two_bytes(b, 4, 0);
    assert(b.subrange(6, 8) =~= two_bytes(answers));
    lemma_two_bytes(b, 6, answers);
    assert(b.subrange(8, 10) =~= two_bytes(authority));
    lemma_two_bytes(b, 8, authority);
    assert(b.subrange(10, 12) =~= two_bytes(additional));
    lemma_two_bytes(b, 10, additional);
}

/// The record says that a host has an address.
pub open spec fn says_address(r: MdnsRecordView, host: Seq<char>, ip: IpAddr) -> bool {
    r == (MdnsRecordView::Address { host, ip })
}

/// Some record says that a host has an address.
pub open spec fn addressed(records: Seq<MdnsRecordView>, host: Seq<char>, ip: IpAddr) -> bool {
    exists|i: int| 0 <= i < records.len() && says_address(#[trigger] records[i], host, ip)
}

/// The addresses of a host are those that the records say.
proof fn lemma_addresses(records: Seq<MdnsRecordView>, host: Seq<char>, ip: IpAddr)
    ensures
        mdns::host_addresses(records, host).contains(ip) <==> addressed(records, host, ip),
    decreases records.len(),
{
    if records.len() > 0 {
        let front = records.drop_last();
        let rest = mdns::host_addresses(front, host);
        let all = mdns::host_addresses(records, host);
        lemma_addresses(front, host, ip);
        assert(records[records.len() - 1] == records.last());
        if addressed(front, host, ip) {
            let i = choose|i: int| 0 <= i < front.len() && says_address(#[trigger] front[i], host, ip);
            assert(records[i] == front[i]);
        }
        if addressed(records, host, ip) {
            let i = choose|i: int|
                0 <= i < records.len() && says_address(#[trigger] records[i], host, ip);
            if i < front.len() {
                assert(front[i] == records[i]);
            } else {
                assert(all[rest.len() as int] == ip);
            }
        }
        if rest.contains(ip) {
            let k = choose|k: int| 0 <= k < rest.len() && rest[k] == ip;
            assert(all[k] == ip);
        }
        if all.contains(ip) && !rest.contains(ip) {
            let k = choose|k: int| 0 <= k < all.len() && all[k] == ip;
            if k < rest.len() {
                assert(rest[k] == ip);
            }
        }
    }
}

/// The hosts are those that the records give an address.
proof fn lemma_hosts(records: Seq<MdnsRecordView>, host: Seq<char>)
    ensures
        mdns::hosts(records).contains(host) <==> exists|ip: IpAddr| addressed(records, host, ip),
    decreases records.len(),
{
    if records.len() > 0 {
        let front = records.drop_last();
        let rest = mdns::hosts(front);
        let all = mdns::hosts(records);
        lemma_hosts(front, host);
        assert(records[records.len() - 1] == records.last());
        if rest.contains(host) {
            let k = choose|k: int| 0 <= k < rest.len() && rest[k] == host;
            assert(all[k] == host);
            let ip = choose|ip: IpAddr| addressed(front, host, ip);
            let i = choose|i: int| 0 <= i < front.len() && says_address(#[trigger] front[i], host, ip);
            assert(records[i] == front[i]);
            assert(addressed(records, host, ip));
        }
        if exists|ip: IpAddr| addressed(records, host, ip) {
            let ip = choose|ip: IpAddr| addressed(records, host, ip);
            let i = choose|i: int|
                0 <= i < records.len() && says_address(#[trigger] records[i], host, ip);
            if i < front.len() {
                assert(front[i] == records[i]);
                assert(addressed(front, host, ip));
            } else if !rest.contains(host) {
                assert(all[rest.len() as int] == host);
            }
        }
        if all.contains(host) && !rest.contains(host) {
            let k = choose|k: int| 0 <= k < all.len() && all[k] == host;
            if k < rest.len() {
                assert(rest[k] == host);
            }
            match records.last() {
                MdnsRecordView::Address { host: h, ip } => {
                    assert(says_address(records[records.len() - 1], host, ip));
                    assert(addressed(records, host, ip));
                },
                _ => {},
            }
        }
    }
}

/// The list has an entry for an address.
pub open spec fn has_entry(list: Seq<MdnsHostView>, ip: IpAddr, info: MdnsInfoView) -> bool {
    list.contains(MdnsHostView { ip, info })
}

/// What the entries of a list are after several were set.
proof fn lemma_set(list: Seq<MdnsHostView>, ips: Seq<IpAddr>, info: MdnsInfoView, e: MdnsHostView)
    ensures
        mdns::set_entries(list, ips, info).contains(e) ==> (ips.contains(e.ip) && e.info == info)
            || list.contains(e),
        ips.contains(e.ip) ==> exists|i: int|
            0 <= i < mdns::set_entries(list, ips, info).len() && (
            #[trigger] mdns::set_entries(list, ips, info)[i]).ip == e.ip,
        (exists|i: int| 0 <= i < list.len() && (#[trigger] list[i]).ip == e.ip) ==> exists|i: int|
            0 <= i < mdns::set_entries(list, ips, info).len() && (
            #[trigger] mdns::set_entries(list, ips, info)[i]).ip == e.ip,
    decreases ips.len(),
{
    if ips.len() > 0 {
        let front = ips.drop_last();
        let ip = ips.last();
        let before = mdns::set_entries(list, front, info);
        let after = mdns::set_entries(list, ips, info);
        lemma_set(list, front, info, e);
        let k = mdns::entry_index(before, ip);
        lemma_index(before, ip);
        assert(ips[ips.len() - 1] == ip);
        if after.contains(e) {
            let i = choose|i: int| 0 <= i < after.len() && after[i] == e;
            if i == k {
                assert(e.ip == ip);
            } else {
                assert(before[i] == e);
                if front.contains(e.ip) {
                    let m = choose|m: int| 0 <= m < front.len() && front[m] == e.ip;
                    assert(ips[m] == e.ip);
                }
            }
        }
        if ips.contains(e.ip) {
            if e.ip == ip {
                assert(after[k].ip == ip);
            } else {
                let m = choose|m: int| 0 <= m < ips.len() && ips[m] == e.ip;
                assert(front[m] == e.ip);
            }
        }
        if exists|i: int| 0 <= i < before.len() && (#[trigger] before[i]).ip == e.ip {
            let i = choose|i: int| 0 <= i < before.len() && (#[trigger] before[i]).ip == e.ip;
            assert(after[i].ip == e.ip);
        }
    } else {
        assert(mdns::set_entries(list, ips, info) == list);
        if exists|i: int| 0 <= i < list.len() && (#[trigger] list[i]).ip == e.ip {
            let i = choose|i: int| 0 <= i < list.len() && (#[trigger] list[i]).ip == e.ip;
            assert(mdns::set_entries(list, ips, info)[i].ip == e.ip);
        }
    }
}

/// The index of an address lies within the list or is its length.
proof fn lemma_index(list: Seq<MdnsHostView>, ip: IpAddr)
    ensures
        0 <= mdns::entry_index(list, ip) <= list.len(),
        mdns::entry_index(list, ip) < list.len() ==> list[mdns::entry_index(list, ip)].ip == ip,
    decreases list.len(),
{
    if list.len() > 0 && list[0].ip != ip {
        lemma_index(list.drop_first(), ip);
    }
}

/// The entries of hosts.
proof fn lemma_entries(records: Seq<MdnsRecordView>, names: Seq<Seq<char>>, e: MdnsHostView)
    ensures
        mdns::entries_of(records, names).contains(e) ==> exists|i: int|
            0 <= i < names.len() && addressed(records, #[trigger] names[i], e.ip) && e.info
                == mdns::host_info(records, names[i]),
        (exists|i: int| 0 <= i < names.len() && addressed(records, #[trigger] names[i], e.ip))
            ==> exists|i: int|
            0 <= i < mdns::entries_of(records, names).len() && (
            #[trigger] mdns::entries_of(records, names)[i]).ip == e.ip,
    decreases names.len(),
{
    if names.len() > 0 {
        let front = names.drop_last();
        let host = names.last();
        let before = mdns::entries_of(records, front);
        let ips = mdns::host_addresses(records, host);
        let info = mdns::host_info(records, host);
        lemma_entries(records, front, e);
        lemma_set(before, ips, info, e);
        lemma_addresses(records, host, e.ip);
        assert(names[names.len() - 1] == host);
        if mdns::entries_of(records, names).contains(e) && before.contains(e) {
            let i = choose|i: int|
                0 <= i < front.len() && addressed(records, #[trigger] front[i], e.ip) && e.info
                    == mdns::host_info(records, front[i]);
            assert(names[i] == front[i]);
        }
        if exists|i: int| 0 <= i < names.len() && addressed(records, #[trigger] names[i], e.ip) {
            let i = choose|i: int|
                0 <= i < names.len() && addressed(records, #[trigger] names[i], e.ip);
            if i < front.len() {
                assert(front[i] == names[i]);
            }
        }
    }
}

/// Every address that the records give a host has an entry, and every entry is what the
/// records say of a host with that address.
pub proof fn law_entries_are_of_addressed_hosts(records: Seq<MdnsRecordView>, e: MdnsHostView)
    ensures
        mdns::mdns_info_spec(records).contains(e) ==> exists|host: Seq<char>|
            #![trigger addressed(records, host, e.ip)]
            addressed(records, host, e.ip) && e.info == mdns::host_info(records, host),
        (exists|host: Seq<char>| #[trigger] addressed(records, host, e.ip)) ==> exists|i: int|
            0 <= i < mdns::mdns_info_spec(records).len() && (
            #[trigger] mdns::mdns_info_spec(records)[i]).ip == e.ip,
{
    let names = mdns::hosts(records);
    lemma_entries(records, names, e);
    if mdns::mdns_info_spec(records).contains(e) {
        let i = choose|i: int|
            0 <= i < names.len() && addressed(records, #[trigger] names[i], e.ip) && e.info
                == mdns::host_info(records, names[i]);
        assert(addressed(records, names[i], e.ip));
    }
    if exists|host: Seq<char>| #[trigger] addressed(records, host, e.ip) {
        let host = choose|host: Seq<char>| #[trigger] addressed(records, host, e.ip);
        lemma_hosts(records, host);
        assert(names.contains(host));
        let i = choose|i: int| 0 <= i < names.len() && names[i] == host;
        assert(addressed(records, names[i], e.ip));
    }
}

/// The record is a service of a host.
pub open spec fn says_service(r: MdnsRecordView, host: Seq<char>, s: MdnsServiceView) -> bool {
    r matches MdnsRecordView::Srv { name, target, port } && target == host && s.name
        == mdns::service_type_spec(name) && (if port == 0 {
        s.port is None
    } else {
        s.port == Some(port)
    })
}

/// The services of a host are those that the records say, each with its port.
proof fn lemma_services(records: Seq<MdnsRecordView>, host: Seq<char>, s: MdnsServiceView)
    ensures
        mdns::host_services(records, host).contains(s) <==> exists|i: int|
            0 <= i < records.len() && says_service(#[trigger] records[i], host, s),
    decreases records.len(),
{
    if records.len() > 0 {
        let front = records.drop_last();
        let rest = mdns::host_services(front, host);
        let all = mdns::host_services(records, host);
        lemma_services(front, host, s);
        assert(records[records.len() - 1] == records.last());
        if rest.contains(s) {
            let k = choose|k: int| 0 <= k < rest.len() && rest[k] == s;
            assert(all[k] == s);
            let i = choose|i: int| 0 <= i < front.len() && says_service(#[trigger] front[i], host, s);
            assert(records[i] == front[i]);
        }
        if exists|i: int| 0 <= i < records.len() && says_service(#[trigger] records[i], host, s) {
            let i = choose|i: int|
                0 <= i < records.len() && says_service(#[trigger] records[i], host, s);
            if i < front.len() {
                assert(front[i] == records[i]);
            } else {
                assert(all[rest.len() as int] == s);
            }
        }
        if all.contains(s) && !rest.contains(s) {
            let k = choose|k: int| 0 <= k < all.len() && all[k] == s;
            if k < rest.len() {
                assert(rest[k] == s);
            }
            assert(says_service(records[records.len() - 1], host, s));
        }
    }
}

/// Text attributes change neither names nor services.
proof fn lemma_attrs_keep(info: MdnsInfoView, attrs: Seq<Seq<char>>)
    ensures
        info.with_attrs(attrs).names == info.names,
        info.with_attrs(attrs).services == info.services,
    decreases attrs.len(),
{
    if attrs.len() > 0 {
        lemma_attrs_keep(info, attrs.drop_last());
    }
}

/// Text records change neither names nor services.
proof fn lemma_txt_keeps(
    info: MdnsInfoView,
    records: Seq<MdnsRecordView>,
    host: Seq<char>,
    names: Seq<Seq<char>>,
)
    ensures
        mdns::with_txt(info, records, host, names).names == info.names,
        mdns::with_txt(info, records, host, names).services == info.services,
    decreases names.len(),
{
    if names.len() > 0 {
        lemma_txt_keeps(info, records, host, names.drop_last());
        lemma_attrs_keep(
            mdns::with_txt(info, records, host, names.drop_last()),
            mdns::txt_attrs(records, names.last()),
        );
    }
}

/// What is said of a host has exactly the services that service records tie to it, each
/// with the port of its record; a port of zero is none.
pub proof fn law_services_are_those_of_the_host(
    records: Seq<MdnsRecordView>,
    host: Seq<char>,
    s: MdnsServiceView,
)
    ensures
        mdns::host_info(records, host).services.contains(s) <==> exists|i: int|
            0 <= i < records.len() && says_service(#[trigger] records[i], host, s),
{
    let info = MdnsInfoView {
        names: text::sorted_set_spec(mdns::host_names(records, host)),
        os: None,
        model: None,
        services: mdns::host_services(records, host),
    };
    lemma_txt_keeps(info, records, host, mdns::txt_names(records));
    lemma_services(records, host, s);
}

/// The record gives a host a name: that of a service instance, or what stands before the
/// type in its own name where a pointer leads to it.
pub open spec fn says_name(r: MdnsRecordView, host: Seq<char>, x: Seq<char>) -> bool {
    match r {
        MdnsRecordView::Srv { name, target, .. } => target == host && x
            == mdns::instance_name_spec(name),
        MdnsRecordView::Ptr { target, .. } => target == host && x == mdns::instance_name_spec(host),
        _ => false,
    }
}

/// The names of a host.
proof fn lemma_names(records: Seq<MdnsRecordView>, host: Seq<char>, x: Seq<char>)
    ensures
        mdns::host_names(records, host).contains(x) <==> x == host || exists|i: int|
            0 <= i < records.len() && says_name(#[trigger] records[i], host, x),
    decreases records.len(),
{
    if records.len() > 0 {
        let front = records.drop_last();
        let rest = mdns::host_names(front, host);
        let all = mdns::host_names(records, host);
        lemma_names(front, host, x);
        assert(records[records.len() - 1] == records.last());
        if rest.contains(x) {
            let k = choose|k: int| 0 <= k < rest.len() && rest[k] == x;
            assert(all[k] == x);
            if x != host {
                let i = choose|i: int| 0 <= i < front.len() && says_name(#[trigger] front[i], host, x);
                assert(records[i] == front[i]);
            }
        }
        if exists|i: int| 0 <= i < records.len() && says_name(#[trigger] records[i], host, x) {
            let i = choose|i: int|
                0 <= i < records.len() && says_name(#[trigger] records[i], host, x);
            if i < front.len() {
                assert(front[i] == records[i]);
            } else {
                assert(all[rest.len() as int] == x);
            }
        }
        if all.contains(x) && !rest.contains(x) {
            let k = choose|k: int| 0 <= k < all.len() && all[k] == x;
            if k < rest.len() {
                assert(rest[k] == x);
            }
            assert(says_name(records[records.len() - 1], host, x));
        }
    } else {
        let all = mdns::host_names(records, host);
        assert(all[0] == host);
    }
}

/// What is said of a host has exactly these names: its own, those of the service
/// instances that are tied to it, and the first part of its own where a pointer leads to
/// it.
pub proof fn law_names_are_those_of_the_host(
    records: Seq<MdnsRecordView>,
    host: Seq<char>,
    x: Seq<char>,
)
    ensures
        mdns::host_info(records, host).names.contains(x) <==> x == host || exists|i: int|
            0 <= i < records.len() && says_name(#[trigger] records[i], host, x),
{
    let info = MdnsInfoView {
        names: text::sorted_set_spec(mdns::host_names(records, host)),
        os: None,
        model: None,
        services: mdns::host_services(records, host),
    };
    lemma_txt_keeps(info, records, host, mdns::txt_names(records));
    text::lemma_sorted_set(mdns::host_names(records, host));
    lemma_names(records, host, x);
}

/// The name of a service is "instance._kind._transport.domain": the instance is what
/// stands before the first "._", the type is the kind without its underscore.
pub proof fn law_service_names_have_parts(
    instance: Seq<char>,
    kind: Seq<char>,
    rest: Seq<char>,
)
    requires
        !instance.contains('.'),
        instance.len() > 0 ==> instance[0] != '_',
        !kind.contains('.'),
        kind.len() > 0,
        kind[0] != '_',
        seq!['_'] + kind != "_tcp"@,
        seq!['_'] + kind != "_udp"@,
    ensures
        mdns::instance_name_spec(
            instance + seq!['.', '_'] + kind + seq!['.'] + rest,
        ) == instance,
        mdns::service_type_spec(
            instance + seq!['.', '_'] + kind + seq!['.'] + rest,
        ) == kind,
{
    let name = instance + seq!['.', '_'] + kind + seq!['.'] + rest;
    let p = "._"@;
    let k = instance.len() as int;
    reveal_strlit("._");
    assert(p =~= seq!['.', '_']);
    assert(name.subrange(k, k + p.len()) =~= p);
    assert forall|j: int| 0 <= j < k implies #[trigger] name.subrange(j, j + p.len()) != p by {
        assert(name.subrange(j, j + p.len())[0] == instance[j]);
        assert(p[0] == '.');
    }
    text::lemma_first_occurrence(name, p, k);
    assert(name.take(k) =~= instance);
    let label = seq!['_'] + kind;
    assert(name =~= instance + seq!['.'] + (label + seq!['.'] + rest));
    text::lemma_split_front(instance, label + seq!['.'] + rest, '.');
    assert(!label.contains('.')) by {
        if label.contains('.') {
            let i = choose|i: int| 0 <= i < label.len() && label[i] == '.';
            assert(kind[i - 1] == '.');
        }
    }
    text::lemma_split_front(label, rest, '.');
    let parts = text::split_char_spec(name, '.');
    let tail = text::split_char_spec(rest, '.');
    assert(parts =~= seq![instance, label] + tail);
    assert(!mdns::is_service_label(parts[0]));
    assert(mdns::is_service_label(label));
    reveal_with_fuel(mdns::service_label, 3);
    assert(parts.drop_first()[0] == label);
    assert(mdns::service_label(parts) == Some(label));
    reveal_with_fuel(text::trim_start_char_spec, 3);
    assert(label.drop_first() =~= kind);
}

/// A text attribute that names a model sets the model, and the system of Apple's models;
/// one that names a version of macOS sets the system. Anything else says nothing.
pub proof fn law_attributes_name_models_and_systems(info: MdnsInfoView, v: Seq<char>)
    ensures
        ({
            let after = info.with_attr("model="@ + v);
            &&& after.model == Some(v)
            &&& text::contains_spec(v, "Mac"@) ==> after.os == Some("macOS"@)
            &&& !text::contains_spec(v, "Mac"@) && !text::contains_spec(v, "iMac"@)
                && text::contains_spec(v, "AppleTV"@) ==> after.os == Some("tvOS"@)
            &&& !text::contains_spec(v, "Mac"@) && !text::contains_spec(v, "iMac"@)
                && !text::contains_spec(v, "AppleTV"@) ==> after.os == info.os
            &&& after.names == info.names && after.services == info.services
        }),
        ({
            let after = info.with_attr("osxvers="@ + v);
            &&& after.model == info.model
            &&& after.os == Some("macOS "@ + text::lower_spec(v))
        }),
        info.with_attr(v) != info ==> text::starts_with_spec(v, "model="@)
            || text::starts_with_spec(text::lower_spec(v), "osxvers="@),
{
    reveal_strlit("model=");
    reveal_strlit("osxvers=");
    let a = "model="@ + v;
    assert(a.take(6) =~= "model="@);
    assert(a.skip(6) =~= v);
    let b = "osxvers="@ + v;
    assert(b.take(6)[0] == 'o');
    assert("model="@[0] == 'm');
    assert(text::lower_spec(b).take(8) =~= "osxvers="@);
    assert(text::lower_spec(b).skip(8) =~= text::lower_spec(v));
}

/// The attribute belongs to a host: a text record holds it under the name of the host,
/// or under the name of a service that is tied to the host.
pub open spec fn attribute_of(
    records: Seq<MdnsRecordView>,
    host: Seq<char>,
    attr: Seq<char>,
) -> bool {
    exists|i: int|
        0 <= i < records.len() && (#[trigger] records[i] matches MdnsRecordView::Txt {
            name,
            attrs,
        } && attrs.contains(attr) && (name == host || mdns::announces(records, host, name)))
}

/// The attributes of a name are those of its text records.
proof fn lemma_txt_attrs(records: Seq<MdnsRecordView>, name: Seq<char>, attr: Seq<char>)
    ensures
        mdns::txt_attrs(records, name).contains(attr) <==> exists|i: int|
            0 <= i < records.len() && (#[trigger] records[i] matches MdnsRecordView::Txt {
                name: n,
                attrs,
            } && n == name && attrs.contains(attr)),
    decreases records.len(),
{
    if records.len() > 0 {
        let front = records.drop_last();
        let rest = mdns::txt_attrs(front, name);
        let all = mdns::txt_attrs(records, name);
        lemma_txt_attrs(front, name, attr);
        assert(records[records.len() - 1] == records.last());
        if rest.contains(attr) {
            let k = choose|k: int| 0 <= k < rest.len() && rest[k] == attr;
            assert(all[k] == attr);
            let i = choose|i: int|
                0 <= i < front.len() && (#[trigger] front[i] matches MdnsRecordView::Txt {
                    name: n,
                    attrs,
                } && n == name && attrs.contains(attr));
            assert(records[i] == front[i]);
        }
        match records.last() {
            MdnsRecordView::Txt { name: n, attrs } => {
                if n == name {
                    if attrs.contains(attr) {
                        let k = choose|k: int| 0 <= k < attrs.len() && attrs[k] == attr;
                        assert(all[rest.len() + k] == attr);
                    }
                    if all.contains(attr) && !rest.contains(attr) {
                        let k = choose|k: int| 0 <= k < all.len() && all[k] == attr;
                        if k < rest.len() {
                            assert(rest[k] == attr);
                        }
                        assert(attrs[k - rest.len()] == attr);
                    }
                }
            },
            _ => {},
        }
        if exists|i: int|
            0 <= i < records.len() && (#[trigger] records[i] matches MdnsRecordView::Txt {
                name: n,
                attrs,
            } && n == name && attrs.contains(attr)) {
            let i = choose|i: int|
                0 <= i < records.len() && (#[trigger] records[i] matches MdnsRecordView::Txt {
                    name: n,
                    attrs,
                } && n == name && attrs.contains(attr));
            if i < front.len() {
                assert(front[i] == records[i]);
            }
        }
    }
}

/// A model comes from an attribute of a list, or was there before.
proof fn lemma_attrs_model(info: MdnsInfoView, attrs: Seq<Seq<char>>)
    ensures
        info.with_attrs(attrs).model == info.model || (info.with_attrs(attrs).model matches Some(m)
            && attrs.contains("model="@ + m)),
        (exists|v: Seq<char>| attrs.contains(#[trigger] ("model="@ + v))) ==> info.with_attrs(
            attrs,
        ).model is Some,
        info.model is Some ==> info.with_attrs(attrs).model is Some,
    decreases attrs.len(),
{
    reveal_strlit("model=");
    if attrs.len() > 0 {
        let front = attrs.drop_last();
        let attr = attrs.last();
        lemma_attrs_model(info, front);
        let before = info.with_attrs(front);
        let after = info.with_attrs(attrs);
        assert(attrs[attrs.len() - 1] == attr);
        if before.model is Some {
            let m = before.model->0;
            if front.contains("model="@ + m) {
                let k = choose|k: int| 0 <= k < front.len() && front[k] == "model="@ + m;
                assert(attrs[k] == "model="@ + m);
            }
        }
        if text::starts_with_spec(attr, "model="@) {
            let m = attr.skip(6);
            assert(attr =~= "model="@ + m);
            assert(attrs.contains("model="@ + m));
        }
        if exists|v: Seq<char>| attrs.contains(#[trigger] ("model="@ + v)) {
            let v = choose|v: Seq<char>| attrs.contains(#[trigger] ("model="@ + v));
            let k = choose|k: int| 0 <= k < attrs.len() && attrs[k] == "model="@ + v;
            if k < front.len() {
                assert(front[k] == "model="@ + v);
                assert(front.contains("model="@ + v));
            } else {
                assert(attr.take(6) =~= "model="@);
            }
        }
    }
}

/// A model of a host comes from one of its attributes.
proof fn lemma_txt_model(
    info: MdnsInfoView,
    records: Seq<MdnsRecordView>,
    host: Seq<char>,
    names: Seq<Seq<char>>,
)
    ensures
        mdns::with_txt(info, records, host, names).model == info.model || (mdns::with_txt(
            info,
            records,
            host,
            names,
        ).model matches Some(m) && attribute_of(records, host, "model="@ + m)),
        info.model is Some ==> mdns::with_txt(info, records, host, names).model is Some,
        forall|name: Seq<char>, v: Seq<char>|
            names.contains(name) && (name == host || mdns::announces(records, host, name))
                && #[trigger] mdns::txt_attrs(records, name).contains("model="@ + v)
                ==> mdns::with_txt(info, records, host, names).model is Some,
    decreases names.len(),
{
    if names.len() > 0 {
        let front = names.drop_last();
        let last = names.last();
        let before = mdns::with_txt(info, records, host, front);
        let after = mdns::with_txt(info, records, host, names);
        let attrs = mdns::txt_attrs(records, last);
        lemma_txt_model(info, records, host, front);
        lemma_attrs_model(before, attrs);
        assert(names[names.len() - 1] == last);
        if after.model != before.model {
            let m = after.model->0;
            lemma_txt_attrs(records, last, "model="@ + m);
        }
        assert forall|name: Seq<char>, v: Seq<char>|
            names.contains(name) && (name == host || mdns::announces(records, host, name))
                && #[trigger] mdns::txt_attrs(records, name).contains(
                "model="@ + v,
            ) implies after.model is Some by {
            if name != last {
                let k = choose|k: int| 0 <= k < names.len() && names[k] == name;
                assert(front[k] == name);
            }
        }
    }
}

/// Names with text records are listed.
proof fn lemma_txt_names(records: Seq<MdnsRecordView>, i: int)
    requires
        0 <= i < records.len(),
        records[i] is Txt,
    ensures
        mdns::txt_names(records).contains(records[i]->Txt_name),
    decreases records.len(),
{
    let front = records.drop_last();
    let rest = mdns::txt_names(front);
    let all = mdns::txt_names(records);
    let name = records[i]->Txt_name;
    if i < front.len() {
        assert(front[i] == records[i]);
        lemma_txt_names(front, i);
        let k = choose|k: int| 0 <= k < rest.len() && rest[k] == name;
        assert(all[k] == name);
    } else if rest.contains(name) {
        let k = choose|k: int| 0 <= k < rest.len() && rest[k] == name;
        assert(all[k] == name);
    } else {
        assert(all[rest.len() as int] == name);
    }
}

/// The model of a host is one that an attribute of the host names, and a host of which
/// some attribute names a model has one.
pub proof fn law_model_is_an_attribute(records: Seq<MdnsRecordView>, host: Seq<char>)
    ensures
        mdns::host_info(records, host).model matches Some(m) ==> attribute_of(
            records,
            host,
            "model="@ + m,
        ),
        (exists|v: Seq<char>| attribute_of(records, host, #[trigger] ("model="@ + v)))
            ==> mdns::host_info(records, host).model is Some,
{
    let info = MdnsInfoView {
        names: text::sorted_set_spec(mdns::host_names(records, host)),
        os: None,
        model: None,
        services: mdns::host_services(records, host),
    };
    lemma_txt_model(info, records, host, mdns::txt_names(records));
    if exists|v: Seq<char>| attribute_of(records, host, #[trigger] ("model="@ + v)) {
        let v = choose|v: Seq<char>| attribute_of(records, host, #[trigger] ("model="@ + v));
        let attr = "model="@ + v;
        let i = choose|i: int|
            0 <= i < records.len() && (#[trigger] records[i] matches MdnsRecordView::Txt {
                name,
                attrs,
            } && attrs.contains(attr) && (name == host || mdns::announces(records, host, name)));
        let name = records[i]->Txt_name;
        lemma_txt_names(records, i);
        lemma_txt_attrs(records, name, attr);
        assert(mdns::txt_attrs(records, name).contains(attr));
    }
}

} // verus!
