//! Multicast DNS: queries, packets, and what they say of each host.

use crate::addr::{ipv6_at, IpAddr, Ipv4Addr};
use crate::addr;
use crate::bytes::{be16, push_all, push_be16};
use crate::bytes;
use crate::same::{holds, Same};
use crate::text::{
    chars, concat, contains, find_text, insert_sorted, is_text, join, lower, owned, split_char,
    strip_prefix, text, trim_end_char, trim_start_char, utf8_lossy,
};
use crate::text;
use vstd::prelude::*;

verus! {

/// A service that a host announces.
#[derive(Debug, PartialEq, Eq)]
pub struct MdnsService {
    pub name: String,
    pub port: Option<u16>,
}

/// The mathematical content of a [`MdnsService`].
#[verifier::ext_equal]
pub struct MdnsServiceView {
    pub name: Seq<char>,
    pub port: Option<u16>,
}

impl View for MdnsService {
    type V = MdnsServiceView;

    open spec fn view(&self) -> MdnsServiceView {
        MdnsServiceView {
            name: self.name@,
            port: self.port,
        }
    }
}

impl DeepView for MdnsService {
    type V = MdnsServiceView;

    open spec fn deep_view(&self) -> MdnsServiceView {
        self@
    }
}

impl Clone for MdnsService {
    fn clone(&self) -> (r: Self)
        ensures
            r@ == self@,
    {
        let r = MdnsService {
            name: self.name.clone(),
            port: self.port,
        };
        r
    }
}

/// What multicast DNS says of one host.
#[derive(Debug, PartialEq, Eq)]
pub struct MdnsInfo {
    pub names: Vec<String>,
    pub os: Option<String>,
    pub model: Option<String>,
    pub services: Vec<MdnsService>,
}

/// The mathematical content of a [`MdnsInfo`].
#[verifier::ext_equal]
pub struct MdnsInfoView {
    pub names: Seq<Seq<char>>,
    pub os: Option<Seq<char>>,
    pub model: Option<Seq<char>>,
    pub services: Seq<MdnsServiceView>,
}

impl View for MdnsInfo {
    type V = MdnsInfoView;

    open spec fn view(&self) -> MdnsInfoView {
        MdnsInfoView {
            names: self.names.deep_view(),
            os: self.os.deep_view(),
            model: self.model.deep_view(),
            services: self.services.deep_view(),
        }
    }
}

impl DeepView for MdnsInfo {
    type V = MdnsInfoView;

    open spec fn deep_view(&self) -> MdnsInfoView {
        self@
    }
}

impl Clone for MdnsInfo {
    fn clone(&self) -> (r: Self)
        ensures
            r@ == self@,
    {
        let r = MdnsInfo {
            names: self.names.clone(),
            os: self.os.clone(),
            model: self.model.clone(),
            services: self.services.clone(),
        };
        proof {
            assert(r.names.deep_view() =~= self.names.deep_view());
            assert(r.os.deep_view() =~= self.os.deep_view());
            assert(r.model.deep_view() =~= self.model.deep_view());
            assert(r.services.deep_view() =~= self.services.deep_view());
        }
        r
    }
}

impl Default for MdnsInfo {
    fn default() -> (r: Self)
        ensures
            r@ == (MdnsInfoView {
                names: seq![],
                os: None,
                model: None,
                services: seq![],
            }),
    {
        let r = MdnsInfo {
            names: Vec::new(),
            os: None,
            model: None,
            services: Vec::new(),
        };
        proof {
            assert(r.names.deep_view() =~= seq![]);
            assert(r.services.deep_view() =~= seq![]);
        }
        r
    }
}

/// A host, by address, and what multicast DNS says of it.
#[derive(Debug, PartialEq, Eq)]
pub struct MdnsHost {
    pub ip: IpAddr,
    pub info: MdnsInfo,
}

/// The mathematical content of a [`MdnsHost`].
#[verifier::ext_equal]
pub struct MdnsHostView {
    pub ip: IpAddr,
    pub info: MdnsInfoView,
}

impl View for MdnsHost {
    type V = MdnsHostView;

    open spec fn view(&self) -> MdnsHostView {
        MdnsHostView {
            ip: self.ip,
            info: self.info@,
        }
    }
}

impl DeepView for MdnsHost {
    type V = MdnsHostView;

    open spec fn deep_view(&self) -> MdnsHostView {
        self@
    }
}

impl Clone for MdnsHost {
    fn clone(&self) -> (r: Self)
        ensures
            r@ == self@,
    {
        let r = MdnsHost {
            ip: self.ip,
            info: self.info.clone(),
        };
        r
    }
}

impl Same for MdnsService {
    fn same(&self, other: &Self) -> (r: bool) {
        self.name == other.name
            && self.port == other.port
    }
}

impl Same for MdnsInfo {
    fn same(&self, other: &Self) -> (r: bool) {
        self.names.same(&other.names)
            && self.os.same(&other.os)
            && self.model.same(&other.model)
            && self.services.same(&other.services)
    }
}

/// One resource record that bears on the identity of a host.
#[derive(Debug, PartialEq, Eq)]
pub enum MdnsRecord {
    Address { host: String, ip: IpAddr },
    Ptr { name: String, target: String },
    Srv { name: String, target: String, port: u16 },
    Txt { name: String, attrs: Vec<String> },
}

/// The mathematical content of an [`MdnsRecord`].
#[verifier::ext_equal]
pub enum MdnsRecordView {
    Address { host: Seq<char>, ip: IpAddr },
    Ptr { name: Seq<char>, target: Seq<char> },
    Srv { name: Seq<char>, target: Seq<char>, port: u16 },
    Txt { name: Seq<char>, attrs: Seq<Seq<char>> },
}

impl View for MdnsRecord {
    type V = MdnsRecordView;

    open spec fn view(&self) -> MdnsRecordView {
        match self {
            MdnsRecord::Address { host, ip } => MdnsRecordView::Address { host: host@, ip: *ip },
            MdnsRecord::Ptr { name, target } => MdnsRecordView::Ptr {
                name: name@,
                target: target@,
            },
            MdnsRecord::Srv { name, target, port } => MdnsRecordView::Srv {
                name: name@,
                target: target@,
                port: *port,
            },
            MdnsRecord::Txt { name, attrs } => MdnsRecordView::Txt {
                name: name@,
                attrs: attrs.deep_view(),
            },
        }
    }
}

impl DeepView for MdnsRecord {
    type V = MdnsRecordView;

    open spec fn deep_view(&self) -> MdnsRecordView {
        self@
    }
}

/// The labels of the name at position `at`, and the position behind the name
/// there. A length byte from 0xc0 up starts a pointer to where the name goes on.
/// A name that takes more steps than the packet has bytes passes some position
/// twice and never ends: it is no name.
pub open spec fn name_walk(b: Seq<u8>, at: int, steps: nat) -> Option<(Seq<Seq<char>>, int)>
    decreases steps,
{
    if steps == 0 || at < 0 || at >= b.len() {
        None
    } else if b[at] >= 0xc0 {
        if at + 1 >= b.len() {
            None
        } else {
            match name_walk(b, (b[at] % 0x40) * 0x100 + b[at + 1], (steps - 1) as nat) {
                Some((labels, _)) => Some((labels, at + 2)),
                None => None,
            }
        }
    } else if b[at] == 0 {
        Some((seq![], at + 1))
    } else if at + 1 + b[at] > b.len() {
        None
    } else {
        match name_walk(b, at + 1 + b[at], (steps - 1) as nat) {
            Some((labels, end)) => Some(
                (seq![text::utf8_lossy_spec(b.subrange(at + 1, at + 1 + b[at]))] + labels, end),
            ),
            None => None,
        }
    }
}

/// The name at position `at`, and the position behind it.
pub open spec fn dns_name_spec(b: Seq<u8>, at: int) -> Option<(Seq<char>, int)> {
    match name_walk(b, at, b.len()) {
        Some((labels, end)) => Some((text::join_spec(labels, "."@), end)),
        None => None,
    }
}

/// A name ends within the packet.
pub proof fn lemma_name_end(b: Seq<u8>, at: int, steps: nat)
    ensures
        name_walk(b, at, steps) matches Some((_, end)) ==> at < end <= b.len(),
    decreases steps,
{
    if steps > 0 && 0 <= at < b.len() && b[at] < 0xc0 && b[at] != 0 && at + 1 + b[at] <= b.len() {
        lemma_name_end(b, at + 1 + b[at], (steps - 1) as nat);
    }
}

/// What the rest of a walk makes of the labels read so far. Once a pointer was
/// followed, the name ends behind that pointer.
spec fn walked(
    labels: Seq<Seq<char>>,
    jumped: Option<int>,
    rest: Option<(Seq<Seq<char>>, int)>,
) -> Option<(Seq<Seq<char>>, int)> {
    match rest {
        Some((more, end)) => Some(
            (
                labels + more,
                match jumped {
                    Some(next) => next,
                    None => end,
                },
            ),
        ),
        None => None,
    }
}

/// The view of an optional name and position.
pub open spec fn name_view(r: Option<(String, usize)>) -> Option<(Seq<char>, int)> {
    match r {
        Some((name, next)) => Some((name@, next as int)),
        None => None,
    }
}

/// Reads the name at a position of a packet.
///
/// Compression pointers can form loops in malformed packets. The number of steps
/// is bounded by the length of the packet, so a bad packet cannot spin the parser
/// forever.
pub fn read_dns_name(b: &[u8], start: usize) -> (r: Option<(String, usize)>)
    ensures
        name_view(r) == dns_name_spec(b@, start as int),
        r matches Some((_, next)) ==> start < next <= b@.len(),
{
    let mut labels: Vec<String> = Vec::new();
    let mut jumped: Option<usize> = None;
    let mut at: usize = start;
    let total: usize = b.len();
    let mut steps: usize = total;
    proof {
        lemma_name_end(b@, start as int, b@.len());
        assert(labels.deep_view() =~= seq![]);
        let rest = name_walk(b@, start as int, b@.len());
        if rest is Some {
            assert(labels.deep_view() + (rest->0).0 =~= (rest->0).0);
        }
    }
    loop
        invariant
            total == b@.len(),
            steps <= total,
            name_walk(b@, start as int, b@.len()) == walked(
                labels.deep_view(),
                match jumped {
                    Some(n) => Some(n as int),
                    None => None,
                },
                name_walk(b@, at as int, steps as nat),
            ),
            jumped matches Some(n) ==> n <= total,
            name_walk(b@, start as int, b@.len()) matches Some((_, end)) ==> start < end
                <= b@.len(),
        decreases steps,
    {
        if steps == 0 || at >= total {
            return None;
        }
        steps = steps - 1;
        let len: u8 = b[at];
        if len >= 0xc0 {
            if total - at < 2 {
                return None;
            }
            let pointer: usize = (len % 0x40) as usize * 0x100 + b[at + 1] as usize;
            if jumped.is_none() {
                jumped = Some(at + 2);
            }
            at = pointer;
        } else if len == 0 {
            let next: usize = match jumped {
                Some(n) => n,
                None => at + 1,
            };
            proof {
                assert(labels.deep_view() + Seq::<Seq<char>>::empty() =~= labels.deep_view());
            }
            return Some((join(&labels, "."), next));
        } else {
            let n: usize = len as usize;
            if total - at < 1 + n {
                return None;
            }
            let ghost before = labels.deep_view();
            let label = utf8_lossy(vstd::slice::slice_subrange(b, at + 1, at + 1 + n));
            labels.push(label);
            proof {
                assert(labels.deep_view() =~= before.push(label@));
                let rest = name_walk(b@, at + 1 + n, steps as nat);
                if rest is Some {
                    assert(before + (seq![label@] + (rest->0).0) =~= labels.deep_view() + (
                    rest->0).0);
                }
            }
            at = at + 1 + n;
        }
    }
}

/// A name without trailing dots.
pub open spec fn normal_dns_name(name: Seq<char>) -> Seq<char> {
    text::trim_end_char_spec(name, '.')
}

/// Drops the trailing dots of a name.
fn normalize_dns_name(name: &str) -> (r: String)
    ensures
        r@ == normal_dns_name(name@),
{
    text(trim_end_char(chars(name).as_slice(), '.'))
}

/// The strings of a TXT record, each behind its length byte, up to one that runs
/// past the record.
pub open spec fn txt_strings_spec(b: Seq<u8>) -> Seq<Seq<char>>
    decreases b.len(),
{
    if b.len() == 0 || 1 + b[0] > b.len() {
        seq![]
    } else {
        seq![text::utf8_lossy_spec(b.subrange(1, 1 + b[0]))] + txt_strings_spec(b.skip(1 + b[0]))
    }
}

/// Reads the strings of a TXT record.
fn parse_txt_records(b: &[u8]) -> (r: Vec<String>)
    ensures
        r.deep_view() == txt_strings_spec(b@),
{
    let mut out: Vec<String> = Vec::new();
    let total: usize = b.len();
    let mut at: usize = 0;
    proof {
        assert(b@.skip(0) =~= b@);
        assert(out.deep_view() + txt_strings_spec(b@) =~= txt_strings_spec(b@));
    }
    while at < total
        invariant
            at <= total,
            total == b@.len(),
            out.deep_view() + txt_strings_spec(b@.skip(at as int)) == txt_strings_spec(b@),
        ensures
            out.deep_view() == txt_strings_spec(b@),
        decreases total - at,
    {
        let ghost rest = b@.skip(at as int);
        let ghost before = out.deep_view();
        let n: usize = b[at] as usize;
        if total - at < 1 + n {
            proof {
                assert(before + Seq::<Seq<char>>::empty() =~= before);
            }
            break;
        }
        let piece = vstd::slice::slice_subrange(b, at + 1, at + 1 + n);
        let value = utf8_lossy(piece);
        out.push(value);
        proof {
            assert(piece@ =~= rest.subrange(1, 1 + n));
            assert(rest.skip(1 + n) =~= b@.skip(at + 1 + n));
            assert(out.deep_view() =~= before.push(value@));
            let tail = txt_strings_spec(rest.skip(1 + n));
            assert(before + (seq![value@] + tail) =~= out.deep_view() + tail);
        }
        at = at + 1 + n;
    }
    proof {
        if at == total {
            assert(out.deep_view() + Seq::<Seq<char>>::empty() =~= out.deep_view());
        }
    }
    out
}

/// The record of the given type whose data lie at position `at`, where it bears
/// on the identity of a host.
pub open spec fn record_spec(
    b: Seq<u8>,
    name: Seq<char>,
    kind: u16,
    at: int,
    n: int,
) -> Option<MdnsRecordView> {
    let name = normal_dns_name(name);
    if kind == 1 && n == 4 {
        Some(
            MdnsRecordView::Address {
                host: name,
                ip: IpAddr::V4(Ipv4Addr { bits: addr::quad_bits(b[at], b[at + 1], b[at + 2], b[at + 3]) }),
            },
        )
    } else if kind == 28 && n == 16 {
        Some(MdnsRecordView::Address { host: name, ip: IpAddr::V6(addr::ipv6_at_spec(b, at)) })
    } else if kind == 12 {
        match dns_name_spec(b, at) {
            Some((target, _)) => Some(
                MdnsRecordView::Ptr { name, target: normal_dns_name(target) },
            ),
            None => None,
        }
    } else if kind == 33 && n >= 6 {
        match dns_name_spec(b, at + 6) {
            Some((target, _)) => Some(
                MdnsRecordView::Srv {
                    name,
                    target: normal_dns_name(target),
                    port: bytes::be16_spec(b, at + 4),
                },
            ),
            None => None,
        }
    } else if kind == 16 {
        Some(MdnsRecordView::Txt { name, attrs: txt_strings_spec(b.subrange(at, at + n)) })
    } else {
        None
    }
}

/// Reads one record whose data lie at position `at`.
fn parse_record(b: &[u8], name: &str, kind: u16, at: usize, n: usize) -> (r: Option<MdnsRecord>)
    requires
        at + n <= b@.len(),
    ensures
        r.deep_view() == record_spec(b@, name@, kind, at as int, n as int),
{
    let name = normalize_dns_name(name);
    let total: usize = b.len();
    if kind == 1 && n == 4 {
        Some(
            MdnsRecord::Address {
                host: name,
                ip: IpAddr::V4(Ipv4Addr::new(b[at], b[at + 1], b[at + 2], b[at + 3])),
            },
        )
    } else if kind == 28 && n == 16 {
        Some(MdnsRecord::Address { host: name, ip: IpAddr::V6(ipv6_at(b, at)) })
    } else if kind == 12 {
        match read_dns_name(b, at) {
            Some((target, _)) => Some(
                MdnsRecord::Ptr { name, target: normalize_dns_name(target.as_str()) },
            ),
            None => None,
        }
    } else if kind == 33 && n >= 6 {
        match read_dns_name(b, at + 6) {
            Some((target, _)) => Some(
                MdnsRecord::Srv {
                    name,
                    target: normalize_dns_name(target.as_str()),
                    port: be16(b, at + 4),
                },
            ),
            None => None,
        }
    } else if kind == 16 {
        Some(
            MdnsRecord::Txt {
                name,
                attrs: parse_txt_records(vstd::slice::slice_subrange(b, at, at + n)),
            },
        )
    } else {
        None
    }
}

/// The position behind `count` questions; nothing when one is malformed or runs
/// past the packet.
pub open spec fn skip_questions(b: Seq<u8>, at: int, count: nat) -> Option<int>
    decreases count,
{
    if count == 0 {
        Some(at)
    } else {
        match dns_name_spec(b, at) {
            Some((_, next)) => if next + 4 > b.len() {
                None
            } else {
                skip_questions(b, next + 4, (count - 1) as nat)
            },
            None => None,
        }
    }
}

/// The records among the next `count`, up to one that is malformed or runs past
/// the packet.
pub open spec fn records_from(b: Seq<u8>, at: int, count: nat) -> Seq<MdnsRecordView>
    decreases count,
{
    if count == 0 {
        seq![]
    } else {
        match dns_name_spec(b, at) {
            Some((name, next)) => if next + 10 > b.len() {
                seq![]
            } else {
                let n = bytes::be16_spec(b, next + 8) as int;
                if next + 10 + n > b.len() {
                    seq![]
                } else {
                    let rest = records_from(b, next + 10 + n, (count - 1) as nat);
                    match record_spec(b, name, bytes::be16_spec(b, next), next + 10, n) {
                        Some(record) => seq![record] + rest,
                        None => rest,
                    }
                }
            },
            None => seq![],
        }
    }
}

/// The records of a packet: answers, authority, and additional sections share
/// one layout and can all hold identity clues.
pub open spec fn mdns_packet_spec(b: Seq<u8>) -> Seq<MdnsRecordView> {
    if b.len() < 12 {
        seq![]
    } else {
        match skip_questions(b, 12, bytes::be16_spec(b, 4) as nat) {
            Some(at) => records_from(
                b,
                at,
                (bytes::be16_spec(b, 6) + bytes::be16_spec(b, 8) + bytes::be16_spec(b, 10)) as nat,
            ),
            None => seq![],
        }
    }
}

/// Reads the records of a packet.
pub fn parse_mdns_packet(b: &[u8]) -> (r: Vec<MdnsRecord>)
    ensures
        r.deep_view() == mdns_packet_spec(b@),
{
    let mut records: Vec<MdnsRecord> = Vec::new();
    let total: usize = b.len();
    proof {
        assert(records.deep_view() =~= seq![]);
    }
    if total < 12 {
        return records;
    }
    let questions: u16 = be16(b, 4);
    let count: u32 = be16(b, 6) as u32 + be16(b, 8) as u32 + be16(b, 10) as u32;
    let mut at: usize = 12;
    let mut left: u16 = questions;
    while left > 0
        invariant
            total == b@.len(),
            total >= 12,
            at <= total,
            records.deep_view() == Seq::<MdnsRecordView>::empty(),
            questions == bytes::be16_spec(b@, 4),
            skip_questions(b@, 12, questions as nat) == skip_questions(b@, at as int, left as nat),
        decreases left,
    {
        match read_dns_name(b, at) {
            Some((_, next)) => {
                if total - next < 4 {
                    return records;
                }
                at = next + 4;
            },
            None => {
                return records;
            },
        }
        left = left - 1;
    }
    let mut left: u32 = count;
    proof {
        assert(records.deep_view() + records_from(b@, at as int, count as nat)
            =~= mdns_packet_spec(b@));
    }
    while left > 0
        invariant
            total == b@.len(),
            at <= total,
            records.deep_view() + records_from(b@, at as int, left as nat) == mdns_packet_spec(b@),
        ensures
            records.deep_view() == mdns_packet_spec(b@),
        decreases left,
    {
        let ghost before = records.deep_view();
        proof {
            assert(before + Seq::<MdnsRecordView>::empty() =~= before);
        }
        let (name, next) = match read_dns_name(b, at) {
            Some(found) => found,
            None => {
                break;
            },
        };
        if total - next < 10 {
            break;
        }
        let n: usize = be16(b, next + 8) as usize;
        let data: usize = next + 10;
        if total - data < n {
            break;
        }
        match parse_record(b, name.as_str(), be16(b, next), data, n) {
            Some(record) => {
                let ghost view = record@;
                records.push(record);
                proof {
                    assert(records.deep_view() =~= before.push(view));
                    let tail = records_from(b@, data + n, (left - 1) as nat);
                    assert(before + (seq![view] + tail) =~= records.deep_view() + tail);
                }
            },
            None => {},
        }
        at = data + n;
        left = left - 1;
    }
    proof {
        if left == 0 {
            assert(records.deep_view() + Seq::<MdnsRecordView>::empty() =~= records.deep_view());
        }
    }
    records
}

/// The part of a service name before its type.
pub open spec fn instance_name_spec(name: Seq<char>) -> Seq<char> {
    match text::text_index(name, "._"@) {
        Some(k) => name.take(k),
        None => name,
    }
}

/// The part of a service name before its type.
pub fn service_instance_name(name: &str) -> (r: String)
    ensures
        r@ == instance_name_spec(name@),
{
    let c = chars(name);
    match find_text(c.as_slice(), "._") {
        Some(k) => {
            let head = vstd::slice::slice_subrange(c.as_slice(), 0, k);
            proof {
                assert(head@ =~= c@.take(k as int));
            }
            text(head)
        },
        None => text(c.as_slice()),
    }
}

/// The label names a service rather than a transport.
pub open spec fn is_service_label(s: Seq<char>) -> bool {
    s.len() > 0 && s[0] == '_' && s != "_tcp"@ && s != "_udp"@
}

/// The first label that names a service.
pub open spec fn service_label(parts: Seq<Seq<char>>) -> Option<Seq<char>>
    decreases parts.len(),
{
    if parts.len() == 0 {
        None
    } else if is_service_label(parts[0]) {
        Some(parts[0])
    } else {
        service_label(parts.drop_first())
    }
}

/// The type of a service name: its first service label, or all of it, without
/// leading underscores.
pub open spec fn service_type_spec(name: Seq<char>) -> Seq<char> {
    match service_label(text::split_char_spec(name, '.')) {
        Some(label) => text::trim_start_char_spec(label, '_'),
        None => text::trim_start_char_spec(name, '_'),
    }
}

/// The type of a service name.
pub fn service_type_name(name: &str) -> (r: String)
    ensures
        r@ == service_type_spec(name@),
{
    let c = chars(name);
    let parts = split_char(c.as_slice(), '.');
    let ghost views = text::slice_views(parts@);
    let mut i: usize = 0;
    proof {
        assert(views.skip(0) =~= views);
    }
    while i < parts.len()
        invariant
            i <= parts@.len(),
            views == text::slice_views(parts@),
            views == text::split_char_spec(name@, '.'),
            service_label(views) == service_label(views.skip(i as int)),
        decreases parts@.len() - i,
    {
        let part = parts[i];
        proof {
            assert(views.skip(i as int)[0] == part@);
            assert(views.skip(i as int).drop_first() =~= views.skip(i + 1));
        }
        if part.len() > 0 && part[0] == '_' && !is_text(part, "_tcp") && !is_text(part, "_udp") {
            return text(trim_start_char(part, '_'));
        }
        i = i + 1;
    }
    text(trim_start_char(c.as_slice(), '_'))
}

/// Reports whether a model name belongs to an Apple computer.
pub open spec fn is_mac_model(model: Seq<char>) -> bool {
    text::contains_spec(model, "Mac"@) || text::contains_spec(model, "iMac"@)
}

impl MdnsInfoView {
    /// The information after one TXT attribute.
    pub open spec fn with_attr(self, attr: Seq<char>) -> MdnsInfoView {
        match text::strip_prefix_spec(attr, "model="@) {
            Some(model) => MdnsInfoView {
                model: Some(model),
                os: if is_mac_model(model) {
                    Some("macOS"@)
                } else if text::contains_spec(model, "AppleTV"@) {
                    Some("tvOS"@)
                } else {
                    self.os
                },
                ..self
            },
            None => match text::strip_prefix_spec(text::lower_spec(attr), "osxvers="@) {
                Some(version) => MdnsInfoView { os: Some("macOS "@ + version), ..self },
                None => self,
            },
        }
    }

    /// The information after a list of TXT attributes.
    pub open spec fn with_attrs(self, attrs: Seq<Seq<char>>) -> MdnsInfoView
        decreases attrs.len(),
    {
        if attrs.len() == 0 {
            self
        } else {
            self.with_attrs(attrs.drop_last()).with_attr(attrs.last())
        }
    }
}

/// Adds what TXT attributes say.
fn apply_mdns_txt(info: &mut MdnsInfo, attrs: &Vec<String>)
    ensures
        final(info)@ == old(info)@.with_attrs(attrs.deep_view()),
{
    let ghost start = info@;
    let ghost views = attrs.deep_view();
    let mut i: usize = 0;
    while i < attrs.len()
        invariant
            i <= attrs@.len(),
            views == attrs.deep_view(),
            info@ == start.with_attrs(views.take(i as int)),
        decreases attrs@.len() - i,
    {
        proof {
            assert(views.take(i + 1).drop_last() =~= views.take(i as int));
            assert(views.take(i + 1).last() == attrs@[i as int]@);
        }
        let attr = chars(attrs[i].as_str());
        match strip_prefix(attr.as_slice(), "model=") {
            Some(model) => {
                info.model = Some(text(model));
                if contains(model, "Mac") || contains(model, "iMac") {
                    info.os = Some(owned("macOS"));
                } else if contains(model, "AppleTV") {
                    info.os = Some(owned("tvOS"));
                }
            },
            None => {
                let low = lower(attr.as_slice());
                match strip_prefix(low.as_slice(), "osxvers=") {
                    Some(version) => {
                        info.os = Some(concat("macOS ", text(version).as_str()));
                    },
                    None => {},
                }
            },
        }
        i = i + 1;
    }
    proof {
        assert(views.take(i as int) =~= views);
    }
}

/// The names under which the records know a host: its own, and the instances of
/// the services that it announces.
pub open spec fn host_names(records: Seq<MdnsRecordView>, host: Seq<char>) -> Seq<Seq<char>>
    decreases records.len(),
{
    if records.len() == 0 {
        seq![host]
    } else {
        let rest = host_names(records.drop_last(), host);
        match records.last() {
            MdnsRecordView::Srv { name, target, .. } if target == host => rest.push(
                instance_name_spec(name),
            ),
            MdnsRecordView::Ptr { target, .. } if target == host => rest.push(
                instance_name_spec(host),
            ),
            _ => rest,
        }
    }
}

/// The services that a host announces, in order.
pub open spec fn host_services(records: Seq<MdnsRecordView>, host: Seq<char>) -> Seq<
    MdnsServiceView,
>
    decreases records.len(),
{
    if records.len() == 0 {
        seq![]
    } else {
        let rest = host_services(records.drop_last(), host);
        match records.last() {
            MdnsRecordView::Srv { name, target, port } if target == host => rest.push(
                MdnsServiceView {
                    name: service_type_spec(name),
                    port: if port != 0 {
                        Some(port)
                    } else {
                        None
                    },
                },
            ),
            _ => rest,
        }
    }
}

/// A service record ties the name to the host.
pub open spec fn announces(records: Seq<MdnsRecordView>, host: Seq<char>, name: Seq<char>) -> bool {
    exists|i: int|
        0 <= i < records.len() && (#[trigger] records[i] matches MdnsRecordView::Srv {
            name: n,
            target,
            ..
        } && n == name && target == host)
}

/// The names that have TXT records, in order of appearance.
pub open spec fn txt_names(records: Seq<MdnsRecordView>) -> Seq<Seq<char>>
    decreases records.len(),
{
    if records.len() == 0 {
        seq![]
    } else {
        let rest = txt_names(records.drop_last());
        match records.last() {
            MdnsRecordView::Txt { name, .. } if !rest.contains(name) => rest.push(name),
            _ => rest,
        }
    }
}

/// All TXT attributes of a name, in order.
pub open spec fn txt_attrs(records: Seq<MdnsRecordView>, name: Seq<char>) -> Seq<Seq<char>>
    decreases records.len(),
{
    if records.len() == 0 {
        seq![]
    } else {
        let rest = txt_attrs(records.drop_last(), name);
        match records.last() {
            MdnsRecordView::Txt { name: n, attrs } if n == name => rest + attrs,
            _ => rest,
        }
    }
}

/// The information after the TXT attributes of those names that belong to the
/// host: its own name and the names of its services.
pub open spec fn with_txt(
    info: MdnsInfoView,
    records: Seq<MdnsRecordView>,
    host: Seq<char>,
    names: Seq<Seq<char>>,
) -> MdnsInfoView
    decreases names.len(),
{
    if names.len() == 0 {
        info
    } else {
        let rest = with_txt(info, records, host, names.drop_last());
        let name = names.last();
        if name == host || announces(records, host, name) {
            rest.with_attrs(txt_attrs(records, name))
        } else {
            rest
        }
    }
}

/// What the records say of a host.
pub open spec fn host_info(records: Seq<MdnsRecordView>, host: Seq<char>) -> MdnsInfoView {
    with_txt(
        MdnsInfoView {
            names: text::sorted_set_spec(host_names(records, host)),
            os: None,
            model: None,
            services: host_services(records, host),
        },
        records,
        host,
        txt_names(records),
    )
}

/// The hosts that have an address, in order of appearance.
pub open spec fn hosts(records: Seq<MdnsRecordView>) -> Seq<Seq<char>>
    decreases records.len(),
{
    if records.len() == 0 {
        seq![]
    } else {
        let rest = hosts(records.drop_last());
        match records.last() {
            MdnsRecordView::Address { host, .. } if !rest.contains(host) => rest.push(host),
            _ => rest,
        }
    }
}

/// The addresses of a host, in order.
pub open spec fn host_addresses(records: Seq<MdnsRecordView>, host: Seq<char>) -> Seq<IpAddr>
    decreases records.len(),
{
    if records.len() == 0 {
        seq![]
    } else {
        let rest = host_addresses(records.drop_last(), host);
        match records.last() {
            MdnsRecordView::Address { host: h, ip } if h == host => rest.push(ip),
            _ => rest,
        }
    }
}

/// The position of the entry for an address, or the length when there is none.
pub open spec fn entry_index(list: Seq<MdnsHostView>, ip: IpAddr) -> int
    decreases list.len(),
{
    if list.len() == 0 || list[0].ip == ip {
        0
    } else {
        1 + entry_index(list.drop_first(), ip)
    }
}

/// The list with one entry for the address set.
pub open spec fn set_entry(list: Seq<MdnsHostView>, ip: IpAddr, info: MdnsInfoView) -> Seq<
    MdnsHostView,
> {
    let k = entry_index(list, ip);
    if k < list.len() {
        list.update(k, MdnsHostView { ip, info })
    } else {
        list.push(MdnsHostView { ip, info })
    }
}

/// The list with the entries of several addresses set to the same information.
pub open spec fn set_entries(list: Seq<MdnsHostView>, ips: Seq<IpAddr>, info: MdnsInfoView) -> Seq<
    MdnsHostView,
>
    decreases ips.len(),
{
    if ips.len() == 0 {
        list
    } else {
        set_entry(set_entries(list, ips.drop_last(), info), ips.last(), info)
    }
}

/// The entries of several hosts, in order; where hosts share an address, the
/// later host has it.
pub open spec fn entries_of(records: Seq<MdnsRecordView>, names: Seq<Seq<char>>) -> Seq<
    MdnsHostView,
>
    decreases names.len(),
{
    if names.len() == 0 {
        seq![]
    } else {
        set_entries(
            entries_of(records, names.drop_last()),
            host_addresses(records, names.last()),
            host_info(records, names.last()),
        )
    }
}

/// What the records say of each address.
pub open spec fn mdns_info_spec(records: Seq<MdnsRecordView>) -> Seq<MdnsHostView> {
    entries_of(records, hosts(records))
}

/// Lists the names of a host, sorted and without repeats.
fn collect_names(records: &Vec<MdnsRecord>, host: &String) -> (r: Vec<String>)
    ensures
        r.deep_view() == text::sorted_set_spec(host_names(records.deep_view(), host@)),
{
    let ghost views = records.deep_view();
    let mut out: Vec<String> = Vec::new();
    proof {
        assert(out.deep_view() =~= seq![]);
        assert(seq![host@].drop_last() =~= seq![]);
        assert(text::sorted_set_spec(seq![host@]) == text::insert_sorted_spec(
            text::sorted_set_spec(seq![host@].drop_last()),
            host@,
        ));
    }
    insert_sorted(&mut out, host.clone());
    let mut i: usize = 0;
    while i < records.len()
        invariant
            i <= records@.len(),
            views == records.deep_view(),
            out.deep_view() == text::sorted_set_spec(host_names(views.take(i as int), host@)),
        decreases records@.len() - i,
    {
        let ghost before = host_names(views.take(i as int), host@);
        proof {
            assert(views.take(i + 1).drop_last() =~= views.take(i as int));
            assert(views.take(i + 1).last() == records@[i as int]@);
        }
        match &records[i] {
            MdnsRecord::Srv { name, target, .. } => {
                if *target == *host {
                    let instance = service_instance_name(name.as_str());
                    proof {
                        assert(before.push(instance@).drop_last() =~= before);
                    }
                    insert_sorted(&mut out, instance);
                }
            },
            MdnsRecord::Ptr { target, .. } => {
                if *target == *host {
                    let instance = service_instance_name(target.as_str());
                    proof {
                        assert(before.push(instance@).drop_last() =~= before);
                    }
                    insert_sorted(&mut out, instance);
                }
            },
            _ => {},
        }
        i = i + 1;
    }
    proof {
        assert(views.take(i as int) =~= views);
    }
    out
}

/// Lists the services of a host.
fn collect_services(records: &Vec<MdnsRecord>, host: &String) -> (r: Vec<MdnsService>)
    ensures
        r.deep_view() == host_services(records.deep_view(), host@),
{
    let ghost views = records.deep_view();
    let mut out: Vec<MdnsService> = Vec::new();
    proof {
        assert(out.deep_view() =~= seq![]);
    }
    let mut i: usize = 0;
    while i < records.len()
        invariant
            i <= records@.len(),
            views == records.deep_view(),
            out.deep_view() == host_services(views.take(i as int), host@),
        decreases records@.len() - i,
    {
        let ghost before = out.deep_view();
        proof {
            assert(views.take(i + 1).drop_last() =~= views.take(i as int));
            assert(views.take(i + 1).last() == records@[i as int]@);
        }
        match &records[i] {
            MdnsRecord::Srv { name, target, port } => {
                if *target == *host {
                    let service = MdnsService {
                        name: service_type_name(name.as_str()),
                        port: if *port != 0 {
                            Some(*port)
                        } else {
                            None
                        },
                    };
                    let ghost view = service@;
                    out.push(service);
                    proof {
                        assert(out.deep_view() =~= before.push(view));
                    }
                }
            },
            _ => {},
        }
        i = i + 1;
    }
    proof {
        assert(views.take(i as int) =~= views);
    }
    out
}

/// Reports whether a service record ties a name to a host.
fn is_announced(records: &Vec<MdnsRecord>, host: &String, wanted: &String) -> (r: bool)
    ensures
        r == announces(records.deep_view(), host@, wanted@),
{
    let ghost views = records.deep_view();
    let mut i: usize = 0;
    while i < records.len()
        invariant
            i <= records@.len(),
            views == records.deep_view(),
            forall|j: int|
                0 <= j < i ==> !(#[trigger] views[j] matches MdnsRecordView::Srv {
                    name: n,
                    target,
                    ..
                } && n == wanted@ && target == host@),
        decreases records@.len() - i,
    {
        proof {
            assert(views[i as int] == records@[i as int]@);
        }
        match &records[i] {
            MdnsRecord::Srv { name, target, .. } => {
                if *name == *wanted && *target == *host {
                    return true;
                }
            },
            _ => {},
        }
        i = i + 1;
    }
    false
}

/// Lists the names that have TXT records.
fn collect_txt_names(records: &Vec<MdnsRecord>) -> (r: Vec<String>)
    ensures
        r.deep_view() == txt_names(records.deep_view()),
{
    let ghost views = records.deep_view();
    let mut out: Vec<String> = Vec::new();
    proof {
        assert(out.deep_view() =~= seq![]);
    }
    let mut i: usize = 0;
    while i < records.len()
        invariant
            i <= records@.len(),
            views == records.deep_view(),
            out.deep_view() == txt_names(views.take(i as int)),
        decreases records@.len() - i,
    {
        let ghost before = out.deep_view();
        proof {
            assert(views.take(i + 1).drop_last() =~= views.take(i as int));
            assert(views.take(i + 1).last() == records@[i as int]@);
        }
        match &records[i] {
            MdnsRecord::Txt { name, .. } => {
                if !holds(&out, name) {
                    out.push(name.clone());
                    proof {
                        assert(out.deep_view() =~= before.push(name@));
                    }
                }
            },
            _ => {},
        }
        i = i + 1;
    }
    proof {
        assert(views.take(i as int) =~= views);
    }
    out
}

/// Lists the TXT attributes of a name.
fn collect_txt_attrs(records: &Vec<MdnsRecord>, wanted: &String) -> (r: Vec<String>)
    ensures
        r.deep_view() == txt_attrs(records.deep_view(), wanted@),
{
    let ghost views = records.deep_view();
    let mut out: Vec<String> = Vec::new();
    proof {
        assert(out.deep_view() =~= seq![]);
    }
    let mut i: usize = 0;
    while i < records.len()
        invariant
            i <= records@.len(),
            views == records.deep_view(),
            out.deep_view() == txt_attrs(views.take(i as int), wanted@),
        decreases records@.len() - i,
    {
        let ghost before = out.deep_view();
        proof {
            assert(views.take(i + 1).drop_last() =~= views.take(i as int));
            assert(views.take(i + 1).last() == records@[i as int]@);
        }
        match &records[i] {
            MdnsRecord::Txt { name, attrs } => {
                if *name == *wanted {
                    let mut more: Vec<String> = attrs.clone();
                    proof {
                        assert(more.deep_view() =~= attrs.deep_view());
                    }
                    let ghost kept = out@;
                    let ghost added = more@;
                    out.append(&mut more);
                    proof {
                        assert(out@ =~= kept + added);
                        assert(out.deep_view() =~= before + attrs.deep_view());
                    }
                }
            },
            _ => {},
        }
        i = i + 1;
    }
    proof {
        assert(views.take(i as int) =~= views);
    }
    out
}

/// Collects what the records say of a host.
fn collect_host(records: &Vec<MdnsRecord>, host: &String) -> (r: MdnsInfo)
    ensures
        r@ == host_info(records.deep_view(), host@),
{
    let ghost views = records.deep_view();
    let mut info = MdnsInfo {
        names: collect_names(records, host),
        os: None,
        model: None,
        services: collect_services(records, host),
    };
    let names = collect_txt_names(records);
    let ghost start = info@;
    let mut i: usize = 0;
    while i < names.len()
        invariant
            i <= names@.len(),
            views == records.deep_view(),
            names.deep_view() == txt_names(views),
            info@ == with_txt(start, views, host@, names.deep_view().take(i as int)),
        decreases names@.len() - i,
    {
        proof {
            let all = names.deep_view();
            assert(all.take(i + 1).drop_last() =~= all.take(i as int));
            assert(all.take(i + 1).last() == names@[i as int]@);
        }
        if names[i] == *host || is_announced(records, host, &names[i]) {
            let attrs = collect_txt_attrs(records, &names[i]);
            apply_mdns_txt(&mut info, &attrs);
        }
        i = i + 1;
    }
    proof {
        assert(names.deep_view().take(i as int) =~= names.deep_view());
    }
    info
}

/// Lists the hosts that have an address.
fn collect_hosts(records: &Vec<MdnsRecord>) -> (r: Vec<String>)
    ensures
        r.deep_view() == hosts(records.deep_view()),
{
    let ghost views = records.deep_view();
    let mut out: Vec<String> = Vec::new();
    proof {
        assert(out.deep_view() =~= seq![]);
    }
    let mut i: usize = 0;
    while i < records.len()
        invariant
            i <= records@.len(),
            views == records.deep_view(),
            out.deep_view() == hosts(views.take(i as int)),
        decreases records@.len() - i,
    {
        let ghost before = out.deep_view();
        proof {
            assert(views.take(i + 1).drop_last() =~= views.take(i as int));
            assert(views.take(i + 1).last() == records@[i as int]@);
        }
        match &records[i] {
            MdnsRecord::Address { host, .. } => {
                if !holds(&out, host) {
                    out.push(host.clone());
                    proof {
                        assert(out.deep_view() =~= before.push(host@));
                    }
                }
            },
            _ => {},
        }
        i = i + 1;
    }
    proof {
        assert(views.take(i as int) =~= views);
    }
    out
}

/// Finds the entry for an address.
fn find_entry(list: &Vec<MdnsHost>, ip: IpAddr) -> (r: usize)
    ensures
        r == entry_index(list.deep_view(), ip),
        r <= list@.len(),
{
    let ghost views = list.deep_view();
    let mut i: usize = 0;
    proof {
        assert(views.skip(0) =~= views);
    }
    while i < list.len() && list[i].ip != ip
        invariant
            i <= list@.len(),
            views == list.deep_view(),
            entry_index(views, ip) == i + entry_index(views.skip(i as int), ip),
        decreases list@.len() - i,
    {
        proof {
            assert(views.skip(i as int)[0] == list@[i as int]@);
            assert(views.skip(i as int).drop_first() =~= views.skip(i + 1));
        }
        i = i + 1;
    }
    proof {
        if i < list@.len() {
            assert(views.skip(i as int)[0] == list@[i as int]@);
        }
    }
    i
}

/// Sets the entry for an address.
fn put_entry(list: &mut Vec<MdnsHost>, ip: IpAddr, info: MdnsInfo)
    ensures
        final(list).deep_view() == set_entry(old(list).deep_view(), ip, info@),
{
    let k: usize = find_entry(list, ip);
    let entry = MdnsHost { ip, info };
    if k < list.len() {
        list.set(k, entry);
        proof {
            assert(list.deep_view() =~= old(list).deep_view().update(k as int, entry@));
        }
    } else {
        list.push(entry);
        proof {
            assert(list.deep_view() =~= old(list).deep_view().push(entry@));
        }
    }
}

/// Lists the addresses of a host.
fn collect_addresses(records: &Vec<MdnsRecord>, wanted: &String) -> (r: Vec<IpAddr>)
    ensures
        r@ == host_addresses(records.deep_view(), wanted@),
{
    let ghost views = records.deep_view();
    let mut out: Vec<IpAddr> = Vec::new();
    let mut i: usize = 0;
    while i < records.len()
        invariant
            i <= records@.len(),
            views == records.deep_view(),
            out@ == host_addresses(views.take(i as int), wanted@),
        decreases records@.len() - i,
    {
        proof {
            assert(views.take(i + 1).drop_last() =~= views.take(i as int));
            assert(views.take(i + 1).last() == records@[i as int]@);
        }
        match &records[i] {
            MdnsRecord::Address { host, ip } => {
                if *host == *wanted {
                    out.push(*ip);
                }
            },
            _ => {},
        }
        i = i + 1;
    }
    proof {
        assert(views.take(i as int) =~= views);
    }
    out
}

/// Collects what the records say of each address.
///
/// Multicast DNS identity is relational: address records map a host to its
/// addresses, service records map a service instance to a host, and text records
/// hang attributes off either.
pub fn records_to_mdns_info(records: &Vec<MdnsRecord>) -> (r: Vec<MdnsHost>)
    ensures
        r.deep_view() == mdns_info_spec(records.deep_view()),
{
    let ghost views = records.deep_view();
    let names = collect_hosts(records);
    let mut out: Vec<MdnsHost> = Vec::new();
    proof {
        assert(out.deep_view() =~= seq![]);
    }
    let mut i: usize = 0;
    while i < names.len()
        invariant
            i <= names@.len(),
            views == records.deep_view(),
            names.deep_view() == hosts(views),
            out.deep_view() == entries_of(views, names.deep_view().take(i as int)),
        decreases names@.len() - i,
    {
        proof {
            let all = names.deep_view();
            assert(all.take(i + 1).drop_last() =~= all.take(i as int));
            assert(all.take(i + 1).last() == names@[i as int]@);
        }
        let ips = collect_addresses(records, &names[i]);
        let info = collect_host(records, &names[i]);
        let ghost start = out.deep_view();
        let mut j: usize = 0;
        while j < ips.len()
            invariant
                j <= ips@.len(),
                out.deep_view() == set_entries(start, ips@.take(j as int), info@),
            decreases ips@.len() - j,
        {
            proof {
                assert(ips@.take(j + 1).drop_last() =~= ips@.take(j as int));
            }
            put_entry(&mut out, ips[j], info.clone());
            j = j + 1;
        }
        proof {
            assert(ips@.take(j as int) =~= ips@);
        }
        i = i + 1;
    }
    proof {
        assert(names.deep_view().take(i as int) =~= names.deep_view());
    }
    out
}

/// A label as it stands in a packet: its length and its bytes.
pub open spec fn label_bytes(label: Seq<char>) -> Seq<u8> {
    seq![vstd::utf8::encode_utf8(label).len() as u8] + vstd::utf8::encode_utf8(label)
}

/// Labels as they stand in a packet, one after the other.
pub open spec fn labels_bytes(labels: Seq<Seq<char>>) -> Seq<u8>
    decreases labels.len(),
{
    if labels.len() == 0 {
        seq![]
    } else {
        labels_bytes(labels.drop_last()) + label_bytes(labels.last())
    }
}

/// The labels of a name.
pub open spec fn name_labels(name: Seq<char>) -> Seq<Seq<char>> {
    text::split_char_spec(text::trim_end_char_spec(name, '.'), '.')
}

/// The label takes more bytes than a packet can say.
pub open spec fn too_long(label: Seq<char>) -> bool {
    vstd::utf8::encode_utf8(label).len() as usize > 63
}

/// The position of the first label that is too long, or the number of labels.
pub open spec fn long_label(labels: Seq<Seq<char>>) -> int
    decreases labels.len(),
{
    if labels.len() == 0 || too_long(labels[0]) {
        0
    } else {
        1 + long_label(labels.drop_first())
    }
}

/// A name as it stands in a packet.
pub open spec fn name_bytes(name: Seq<char>) -> Seq<u8> {
    labels_bytes(name_labels(name)).push(0)
}

/// Appends a name to a packet. A label of more than 63 bytes is an error; the
/// labels before it have been written then.
pub fn write_dns_name(packet: &mut Vec<u8>, name: &str) -> (r: Result<(), String>)
    ensures
        ({
            let labels = name_labels(name@);
            let k = long_label(labels);
            match r {
                Ok(_) => k == labels.len() && final(packet)@ == old(packet)@ + name_bytes(name@),
                Err(e) => 0 <= k < labels.len() && e@ == "DNS label is too long: "@ + labels[k]
                    && final(packet)@ == old(packet)@ + labels_bytes(labels.take(k)),
            }
        }),
{
    let c = chars(name);
    let labels = split_char(trim_end_char(c.as_slice(), '.'), '.');
    let ghost views = text::slice_views(labels@);
    let ghost start = packet@;
    let mut i: usize = 0;
    proof {
        assert(views.skip(0) =~= views);
        assert(start =~= start + labels_bytes(views.take(0)));
    }
    while i < labels.len()
        invariant
            i <= labels@.len(),
            views == text::slice_views(labels@),
            views == name_labels(name@),
            start == old(packet)@,
            packet@ == start + labels_bytes(views.take(i as int)),
            long_label(views) == i + long_label(views.skip(i as int)),
        decreases labels@.len() - i,
    {
        let label = text(labels[i]);
        let bytes = label.as_str().as_bytes();
        let ghost before = packet@;
        proof {
            assert(views.skip(i as int)[0] == label@);
            assert(views.skip(i as int).drop_first() =~= views.skip(i + 1));
            assert(views.take(i + 1).drop_last() =~= views.take(i as int));
            assert(views.take(i + 1).last() == label@);
        }
        if bytes.len() > 63 {
            return Err(concat("DNS label is too long: ", label.as_str()));
        }
        packet.push(bytes.len() as u8);
        push_all(packet, bytes);
        proof {
            assert(packet@ =~= before + label_bytes(label@));
            assert(packet@ =~= start + (labels_bytes(views.take(i as int)) + label_bytes(label@)));
        }
        i = i + 1;
    }
    packet.push(0);
    proof {
        assert(views.take(i as int) =~= views);
        assert(packet@ =~= start + name_bytes(name@));
    }
    Ok(())
}

/// A question for the pointer records of a name.
pub open spec fn question_bytes(name: Seq<char>) -> Seq<u8> {
    name_bytes(name) + bytes::be16_bytes(12) + bytes::be16_bytes(1)
}

/// Questions, one after the other.
pub open spec fn questions_bytes(names: Seq<Seq<char>>) -> Seq<u8>
    decreases names.len(),
{
    if names.len() == 0 {
        seq![]
    } else {
        questions_bytes(names.drop_last()) + question_bytes(names.last())
    }
}

/// A query for the pointer records of several names.
pub open spec fn query_bytes(names: Seq<Seq<char>>) -> Seq<u8> {
    seq![0u8, 0, 0, 0] + bytes::be16_bytes(names.len() as u16) + seq![0u8, 0, 0, 0, 0, 0]
        + questions_bytes(names)
}

/// Every label of the name fits into a packet.
pub open spec fn writable(name: Seq<char>) -> bool {
    long_label(name_labels(name)) == name_labels(name).len()
}

/// The views of a list of string slices.
pub open spec fn str_views(names: Seq<&str>) -> Seq<Seq<char>> {
    names.map_values(|s: &str| s@)
}

/// The position of the first name that cannot be written, or the number of names.
pub open spec fn unwritable(names: Seq<Seq<char>>) -> int
    decreases names.len(),
{
    if names.len() == 0 || !writable(names[0]) {
        0
    } else {
        1 + unwritable(names.drop_first())
    }
}

/// The service types that are asked for.
pub open spec fn mdns_questions_spec() -> Seq<Seq<char>> {
    seq![
        "_services._dns-sd._udp.local"@,
        "_device-info._tcp.local"@,
        "_workstation._tcp.local"@,
        "_smb._tcp.local"@,
        "_ssh._tcp.local"@,
        "_http._tcp.local"@,
    ]
}

/// Lists the service types that are asked for.
///
/// They are a small set that commonly exposes device identity. Additional records in
/// the answers are still read; the list only nudges devices to answer.
pub fn mdns_questions() -> (r: Vec<&'static str>)
    ensures
        str_views(r@) == mdns_questions_spec(),
{
    let mut out: Vec<&'static str> = Vec::new();
    out.push("_services._dns-sd._udp.local");
    out.push("_device-info._tcp.local");
    out.push("_workstation._tcp.local");
    out.push("_smb._tcp.local");
    out.push("_ssh._tcp.local");
    out.push("_http._tcp.local");
    proof {
        assert(str_views(out@) =~= mdns_questions_spec());
    }
    out
}

/// Builds a query for the pointer records of several names.
pub fn build_mdns_query(names: &[&str]) -> (r: Result<Vec<u8>, String>)
    ensures
        ({
            let views = str_views(names@);
            let k = unwritable(views);
            match r {
                Ok(packet) => k == views.len() && packet@ == query_bytes(views),
                Err(e) => 0 <= k < views.len() && ({
                    let labels = name_labels(views[k]);
                    e@ == "DNS label is too long: "@ + labels[long_label(labels)]
                }),
            }
        }),
{
    let ghost views = str_views(names@);
    let mut packet: Vec<u8> = Vec::new();
    push_be16(&mut packet, 0);
    push_be16(&mut packet, 0);
    push_be16(
        &mut packet,
        #[verifier::truncate]
        (names.len() as u16),
    );
    push_be16(&mut packet, 0);
    push_be16(&mut packet, 0);
    push_be16(&mut packet, 0);
    let ghost header = packet@;
    let mut i: usize = 0;
    proof {
        assert(header =~= seq![0u8, 0, 0, 0] + bytes::be16_bytes(views.len() as u16) + seq![
            0u8,
            0,
            0,
            0,
            0,
            0,
        ]);
        assert(views.skip(0) =~= views);
        assert(header =~= header + questions_bytes(views.take(0)));
    }
    while i < names.len()
        invariant
            i <= names@.len(),
            views == str_views(names@),
            packet@ == header + questions_bytes(views.take(i as int)),
            unwritable(views) == i + unwritable(views.skip(i as int)),
        decreases names@.len() - i,
    {
        let ghost before = packet@;
        let ghost name = names@[i as int]@;
        proof {
            assert(views.skip(i as int)[0] == name);
            assert(views.skip(i as int).drop_first() =~= views.skip(i + 1));
            assert(views.take(i + 1).drop_last() =~= views.take(i as int));
            assert(views.take(i + 1).last() == name);
        }
        match write_dns_name(&mut packet, names[i]) {
            Ok(_) => {},
            Err(e) => {
                return Err(e);
            },
        }
        push_be16(&mut packet, 12);
        push_be16(&mut packet, 1);
        proof {
            assert(packet@ =~= before + question_bytes(name));
            assert(packet@ =~= header + (questions_bytes(views.take(i as int)) + question_bytes(
                name,
            )));
        }
        i = i + 1;
    }
    proof {
        assert(views.take(i as int) =~= views);
    }
    Ok(packet)
}

/// The entry for the address holds this information.
pub open spec fn known_entry(list: Seq<MdnsHostView>, entry: MdnsHostView) -> bool {
    let k = entry_index(list, entry.ip);
    0 <= k < list.len() && list[k].info == entry.info
}

/// What is remembered as reported once the entries of a list are.
pub open spec fn remember(known: Seq<MdnsHostView>, list: Seq<MdnsHostView>) -> Seq<MdnsHostView>
    decreases list.len(),
{
    if list.len() == 0 {
        known
    } else {
        let rest = remember(known, list.drop_last());
        if known_entry(rest, list.last()) {
            rest
        } else {
            set_entry(rest, list.last().ip, list.last().info)
        }
    }
}

/// The entries of a list that say something new.
pub open spec fn news(known: Seq<MdnsHostView>, list: Seq<MdnsHostView>) -> Seq<MdnsHostView>
    decreases list.len(),
{
    if list.len() == 0 {
        seq![]
    } else {
        let rest = news(known, list.drop_last());
        if known_entry(remember(known, list.drop_last()), list.last()) {
            rest
        } else {
            rest.push(list.last())
        }
    }
}

/// Collects answers that arrive in several packets, and reports a host only when
/// it gains new facts.
pub struct MdnsCollector {
    pub records: Vec<MdnsRecord>,
    pub reported: Vec<MdnsHost>,
}

impl MdnsCollector {
    /// A collector that has seen no packet.
    pub fn new() -> (r: Self)
        ensures
            r.records.deep_view() == Seq::<MdnsRecordView>::empty(),
            r.reported.deep_view() == Seq::<MdnsHostView>::empty(),
    {
        let r = MdnsCollector { records: Vec::new(), reported: Vec::new() };
        proof {
            assert(r.records.deep_view() =~= seq![]);
            assert(r.reported.deep_view() =~= seq![]);
        }
        r
    }

    /// Takes in a packet and gives back the hosts of which it says something new.
    pub fn receive(&mut self, packet: &[u8]) -> (r: Vec<MdnsHost>)
        ensures
            ({
                let records = old(self).records.deep_view() + mdns_packet_spec(packet@);
                let known = old(self).reported.deep_view();
                &&& final(self).records.deep_view() == records
                &&& final(self).reported.deep_view() == remember(known, mdns_info_spec(records))
                &&& r.deep_view() == news(known, mdns_info_spec(records))
            }),
    {
        let ghost known = self.reported.deep_view();
        let ghost before = self.records.deep_view();
        let mut more = parse_mdns_packet(packet);
        let ghost kept = self.records@;
        let ghost added = more@;
        self.records.append(&mut more);
        proof {
            assert(self.records@ =~= kept + added);
            assert(self.records.deep_view() =~= before + mdns_packet_spec(packet@));
        }
        let list = records_to_mdns_info(&self.records);
        let ghost views = list.deep_view();
        let ghost records = self.records.deep_view();
        let mut out: Vec<MdnsHost> = Vec::new();
        proof {
            assert(out.deep_view() =~= seq![]);
        }
        let mut i: usize = 0;
        while i < list.len()
            invariant
                i <= list@.len(),
                views == list.deep_view(),
                self.records.deep_view() == records,
                self.reported.deep_view() == remember(known, views.take(i as int)),
                out.deep_view() == news(known, views.take(i as int)),
            decreases list@.len() - i,
        {
            let ghost so_far = out.deep_view();
            proof {
                assert(views.take(i + 1).drop_last() =~= views.take(i as int));
                assert(views.take(i + 1).last() == list@[i as int]@);
            }
            let entry = &list[i];
            let k: usize = find_entry(&self.reported, entry.ip);
            let seen = k < self.reported.len() && self.reported[k].info.same(&entry.info);
            if !seen {
                put_entry(&mut self.reported, entry.ip, entry.info.clone());
                let copy = entry.clone();
                out.push(copy);
                proof {
                    assert(out.deep_view() =~= so_far.push(entry@));
                }
            }
            i = i + 1;
        }
        proof {
            assert(views.take(i as int) =~= views);
        }
        out
    }
}

/// Reading labels that stand at the end of `front` gives them back, once what
/// follows them reads.
proof fn lemma_walk_labels(
    front: Seq<u8>,
    labels: Seq<Seq<char>>,
    back: Seq<u8>,
    steps: nat,
    rest: Seq<Seq<char>>,
    end: int,
)
    requires
        forall|i: int|
            0 <= i < labels.len() ==> 0 < vstd::utf8::encode_utf8(#[trigger] labels[i]).len() <= 63,
        ({
            let b = front + labels_bytes(labels) + back;
            name_walk(b, (front.len() + labels_bytes(labels).len()) as int, steps) == Some((rest, end))
        }),
    ensures
        ({
            let b = front + labels_bytes(labels) + back;
            name_walk(b, front.len() as int, steps + labels.len()) == Some((labels + rest, end))
        }),
    decreases labels.len(),
{
    let b = front + labels_bytes(labels) + back;
    if labels.len() == 0 {
        assert(labels + rest =~= rest);
    } else {
        let head = labels.drop_last();
        let last = labels.last();
        let at = (front.len() + labels_bytes(head).len()) as int;
        let code = vstd::utf8::encode_utf8(last);
        assert(labels[labels.len() - 1] == last);
        assert(b =~= front + labels_bytes(head) + (label_bytes(last) + back));
        assert(b[at] == code.len());
        assert(b.subrange(at + 1, at + 1 + code.len()) =~= code);
        vstd::utf8::encode_utf8_valid_utf8(last);
        vstd::utf8::encode_utf8_decode_utf8(last);
        assert(name_walk(b, at, steps + 1) == Some((seq![last] + rest, end)));
        assert forall|i: int| 0 <= i < head.len() implies 0 < vstd::utf8::encode_utf8(
            #[trigger] head[i],
        ).len() <= 63 by {
            assert(head[i] == labels[i]);
        }
        lemma_walk_labels(
            front,
            head,
            label_bytes(last) + back,
            steps + 1,
            seq![last] + rest,
            end,
        );
        assert(head + (seq![last] + rest) =~= labels + rest);
    }
}

/// A name whose labels each take between 1 and 63 bytes reads back from where it
/// was written, whatever stands around it: the name without trailing dots, and the
/// position behind it.
pub proof fn law_written_name_reads_back(front: Seq<u8>, name: Seq<char>, back: Seq<u8>)
    requires
        forall|i: int|
            0 <= i < name_labels(name).len() ==> 0 < vstd::utf8::encode_utf8(
                #[trigger] name_labels(name)[i],
            ).len() <= 63,
    ensures
        dns_name_spec(front + name_bytes(name) + back, front.len() as int) == Some(
            (normal_dns_name(name), (front.len() + name_bytes(name).len()) as int),
        ),
{
    reveal_strlit(".");
    assert("."@ =~= seq!['.']);
    text::law_join_undoes_split(normal_dns_name(name), '.');
    let labels = name_labels(name);
    let b = front + name_bytes(name) + back;
    let at = (front.len() + labels_bytes(labels).len()) as int;
    assert(b =~= front + labels_bytes(labels) + (seq![0u8] + back));
    assert(b[at] == 0);
    lemma_labels_length(labels);
    let steps = (b.len() - labels.len()) as nat;
    assert(name_walk(b, at, steps) == Some((Seq::<Seq<char>>::empty(), at + 1)));
    lemma_walk_labels(front, labels, seq![0u8] + back, steps, seq![], at + 1);
    assert(labels + Seq::<Seq<char>>::empty() =~= labels);
}

/// Each label takes at least one byte of a packet.
proof fn lemma_labels_length(labels: Seq<Seq<char>>)
    ensures
        labels_bytes(labels).len() >= labels.len(),
    decreases labels.len(),
{
    if labels.len() > 0 {
        lemma_labels_length(labels.drop_last());
    }
}

/// What [`entry_index`] finds.
proof fn lemma_entry_index(list: Seq<MdnsHostView>, ip: IpAddr)
    ensures
        0 <= entry_index(list, ip) <= list.len(),
        entry_index(list, ip) < list.len() ==> list[entry_index(list, ip)].ip == ip,
        forall|i: int| 0 <= i < entry_index(list, ip) ==> (#[trigger] list[i]).ip != ip,
    decreases list.len(),
{
    if list.len() > 0 && list[0].ip != ip {
        let rest = list.drop_first();
        lemma_entry_index(rest, ip);
        assert forall|i: int| 0 <= i < entry_index(list, ip) implies (#[trigger] list[i]).ip
            != ip by {
            if i > 0 {
                assert(rest[i - 1] == list[i]);
            }
        }
    }
}

/// The index of an address is the first position that holds it.
proof fn lemma_entry_at(list: Seq<MdnsHostView>, ip: IpAddr, k: int)
    requires
        0 <= k < list.len(),
        list[k].ip == ip,
        forall|i: int| 0 <= i < k ==> (#[trigger] list[i]).ip != ip,
    ensures
        entry_index(list, ip) == k,
{
    lemma_entry_index(list, ip);
    let p = entry_index(list, ip);
    if p > k {
        assert(list[k].ip != ip);
    }
    if p < k {
        assert(list[p].ip != ip);
    }
}

/// Setting an entry makes it known, and takes nothing from other addresses.
proof fn lemma_set_entry(list: Seq<MdnsHostView>, ip: IpAddr, info: MdnsInfoView, e: MdnsHostView)
    ensures
        known_entry(set_entry(list, ip, info), MdnsHostView { ip, info }),
        e.ip != ip && known_entry(list, e) ==> known_entry(set_entry(list, ip, info), e),
{
    let r = set_entry(list, ip, info);
    lemma_entry_index(list, ip);
    let k = entry_index(list, ip);
    assert forall|i: int| 0 <= i < k implies (#[trigger] r[i]).ip != ip by {
        assert(r[i] == list[i]);
    }
    lemma_entry_at(r, ip, k);
    if e.ip != ip && known_entry(list, e) {
        lemma_entry_index(list, e.ip);
        let m = entry_index(list, e.ip);
        assert(m != k);
        assert forall|i: int| 0 <= i < m implies (#[trigger] r[i]).ip != e.ip by {
            if i != k {
                assert(r[i] == list[i]);
            }
        }
        lemma_entry_at(r, e.ip, m);
    }
}

/// Each address stands once.
pub open spec fn distinct_entries(list: Seq<MdnsHostView>) -> bool {
    forall|i: int, j: int|
        0 <= i < j < list.len() ==> (#[trigger] list[i]).ip != (#[trigger] list[j]).ip
}

/// Setting an entry keeps the addresses distinct.
proof fn lemma_set_entry_distinct(list: Seq<MdnsHostView>, ip: IpAddr, info: MdnsInfoView)
    requires
        distinct_entries(list),
    ensures
        distinct_entries(set_entry(list, ip, info)),
{
    lemma_entry_index(list, ip);
    let k = entry_index(list, ip);
    let r = set_entry(list, ip, info);
    assert forall|i: int, j: int| 0 <= i < j < r.len() implies (#[trigger] r[i]).ip != (
    #[trigger] r[j]).ip by {
        if k < list.len() {
            assert(list[i].ip == r[i].ip && list[j].ip == r[j].ip);
        } else {
            assert(list[i] == r[i]);
            if j < list.len() {
                assert(list[j] == r[j]);
            }
        }
    }
}

/// Setting several entries keeps the addresses distinct.
proof fn lemma_set_entries_distinct(list: Seq<MdnsHostView>, ips: Seq<IpAddr>, info: MdnsInfoView)
    requires
        distinct_entries(list),
    ensures
        distinct_entries(set_entries(list, ips, info)),
    decreases ips.len(),
{
    if ips.len() > 0 {
        lemma_set_entries_distinct(list, ips.drop_last(), info);
        lemma_set_entry_distinct(set_entries(list, ips.drop_last(), info), ips.last(), info);
    }
}

/// The entries of several hosts have distinct addresses.
proof fn lemma_entries_distinct(records: Seq<MdnsRecordView>, names: Seq<Seq<char>>)
    ensures
        distinct_entries(entries_of(records, names)),
    decreases names.len(),
{
    if names.len() > 0 {
        lemma_entries_distinct(records, names.drop_last());
        lemma_set_entries_distinct(
            entries_of(records, names.drop_last()),
            host_addresses(records, names.last()),
            host_info(records, names.last()),
        );
    }
}

/// What was reported is remembered.
proof fn lemma_remembered(known: Seq<MdnsHostView>, list: Seq<MdnsHostView>, i: int)
    requires
        distinct_entries(list),
        0 <= i < list.len(),
    ensures
        known_entry(remember(known, list), list[i]),
    decreases list.len(),
{
    let front = list.drop_last();
    let rest = remember(known, front);
    assert(distinct_entries(front)) by {
        assert forall|a: int, b: int| 0 <= a < b < front.len() implies (#[trigger] front[a]).ip != (
        #[trigger] front[b]).ip by {
            assert(front[a] == list[a] && front[b] == list[b]);
        }
    }
    lemma_set_entry(rest, list.last().ip, list.last().info, list[i]);
    if i < front.len() {
        lemma_remembered(known, front, i);
        assert(front[i] == list[i]);
        assert(list[i].ip != list[list.len() - 1].ip);
    } else {
        assert(MdnsHostView { ip: list.last().ip, info: list.last().info } == list[i]);
    }
}

/// What is known is no news.
proof fn lemma_no_news(known: Seq<MdnsHostView>, list: Seq<MdnsHostView>)
    requires
        forall|i: int| 0 <= i < list.len() ==> known_entry(known, #[trigger] list[i]),
    ensures
        remember(known, list) == known,
        news(known, list).len() == 0,
    decreases list.len(),
{
    if list.len() > 0 {
        let front = list.drop_last();
        assert forall|i: int| 0 <= i < front.len() implies known_entry(
            known,
            #[trigger] front[i],
        ) by {
            assert(front[i] == list[i]);
        }
        lemma_no_news(known, front);
        assert(known_entry(known, list[list.len() - 1]));
    }
}

/// Nothing is reported twice: once the hosts of some records were reported, they are
/// no news as long as the records say the same of them.
pub proof fn law_hosts_are_reported_once(
    known: Seq<MdnsHostView>,
    records: Seq<MdnsRecordView>,
    later: Seq<MdnsRecordView>,
)
    requires
        mdns_info_spec(later) == mdns_info_spec(records),
    ensures
        news(remember(known, mdns_info_spec(records)), mdns_info_spec(later)).len() == 0,
{
    let list = mdns_info_spec(records);
    let after = remember(known, list);
    lemma_entries_distinct(records, hosts(records));
    assert forall|i: int| 0 <= i < list.len() implies known_entry(after, #[trigger] list[i]) by {
        lemma_remembered(known, list, i);
    }
    lemma_no_news(after, list);
}

} // verus!
