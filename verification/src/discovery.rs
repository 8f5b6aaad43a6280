//! Host discovery from ARP traffic and local neighbor tables.
//!
//! An active ARP sweep gives fresh L2 reachability for the selected interface. The
//! OS neighbor table is a best-effort fallback that can discover recently contacted
//! hosts even when raw socket access is unavailable.
pub mod adverts;
pub mod cdp;
pub mod frames;
pub mod l2;
pub mod lldp;

use crate::addr::{parse_ipv4, Ipv4Addr, Ipv4Net};
use crate::addr;
use crate::bytes::{be16, be32, push_all, push_be32};
use crate::bytes;
use crate::dhcp::rest_after;
use crate::dhcp;
use crate::net::value_after_token;
use crate::net;
use crate::sort::{insert, SortOrder};
use crate::sort;
use crate::text::{
    chars, colon_hex, find_char, hex_digit, hex_digits, is_text, lines, lower, str_eq, text, words,
};
use crate::text;
use vstd::prelude::*;

verus! {

/// How long, in milliseconds, replies are awaited between two bursts of a pass.
pub const ARP_INTER_BATCH_RECEIVE_WINDOW: u64 = 2;

/// How long, in milliseconds, replies are awaited between two passes.
pub const ARP_INTER_PASS_RECEIVE_WINDOW: u64 = 30;

/// The smallest burst.
pub const ARP_MIN_BATCH_SIZE: usize = 8;

/// Why reading from an interface failed.
#[derive(Clone, Copy, Debug, PartialEq, Eq, Structural)]
pub enum ReadFailure {
    TimedOut,
    WouldBlock,
    Interrupted,
    Other,
}

/// Reports whether reading can go on after a failure: nothing was there to read yet.
pub fn retryable_datalink_read_error(failure: ReadFailure) -> (r: bool)
    ensures
        r == (failure != ReadFailure::Other),
{
    !matches!(failure, ReadFailure::Other)
}

/// A host that answered for its address.
#[derive(Debug, PartialEq, Eq)]
pub struct ArpHit {
    pub ip: Ipv4Addr,
    pub mac: String,
    pub interface: Option<String>,
}

/// The mathematical content of a [`ArpHit`].
#[verifier::ext_equal]
pub struct ArpHitView {
    pub ip: Ipv4Addr,
    pub mac: Seq<char>,
    pub interface: Option<Seq<char>>,
}

impl View for ArpHit {
    type V = ArpHitView;

    open spec fn view(&self) -> ArpHitView {
        ArpHitView {
            ip: self.ip,
            mac: self.mac@,
            interface: self.interface.deep_view(),
        }
    }
}

impl DeepView for ArpHit {
    type V = ArpHitView;

    open spec fn deep_view(&self) -> ArpHitView {
        self@
    }
}

impl Clone for ArpHit {
    fn clone(&self) -> (r: Self)
        ensures
            r@ == self@,
    {
        let r = ArpHit {
            ip: self.ip,
            mac: self.mac.clone(),
            interface: self.interface.clone(),
        };
        proof {
            assert(r.interface.deep_view() =~= self.interface.deep_view());
        }
        r
    }
}

/// The frame that asks who has an address: broadcast, from the given hardware and
/// protocol addresses.
pub open spec fn arp_request_spec(mac: Seq<u8>, source: Ipv4Addr, target: Ipv4Addr) -> Seq<u8> {
    seq![0xffu8, 0xff, 0xff, 0xff, 0xff, 0xff] + mac + seq![
        0x08u8,
        0x06,
        0x00,
        0x01,
        0x08,
        0x00,
        0x06,
        0x04,
        0x00,
        0x01,
    ] + mac + bytes::be32_bytes(source.bits) + seq![0u8, 0, 0, 0, 0, 0] + bytes::be32_bytes(target.bits)
}

/// Builds the frame that asks who has an address.
pub fn build_arp_request(mac: &[u8], source: Ipv4Addr, target: Ipv4Addr) -> (r: Vec<u8>)
    requires
        mac@.len() == 6,
    ensures
        r@ == arp_request_spec(mac@, source, target),
        r@.len() == 42,
{
    let mut out: Vec<u8> = Vec::new();
    push_all(&mut out, [0xffu8, 0xff, 0xff, 0xff, 0xff, 0xff].as_slice());
    push_all(&mut out, mac);
    push_all(
        &mut out,
        [0x08u8, 0x06, 0x00, 0x01, 0x08, 0x00, 0x06, 0x04, 0x00, 0x01].as_slice(),
    );
    push_all(&mut out, mac);
    push_be32(&mut out, source.bits);
    push_all(&mut out, [0u8, 0, 0, 0, 0, 0].as_slice());
    push_be32(&mut out, target.bits);
    proof {
        assert(out@ =~= arp_request_spec(mac@, source, target));
    }
    out
}

/// The sender of an ARP reply: the frame holds an Ethernet header, the ARP type, and a
/// whole ARP packet whose operation is a reply.
pub open spec fn arp_reply_spec(b: Seq<u8>) -> Option<ArpHitView> {
    if b.len() >= 42 && bytes::be16_spec(b, 12) == 0x0806 && bytes::be16_spec(b, 20) == 2 {
        Some(
            ArpHitView {
                ip: Ipv4Addr { bits: bytes::be32_spec(b, 28) },
                mac: text::colon_hex_spec(b.subrange(22, 28)),
                interface: None,
            },
        )
    } else {
        None
    }
}

/// A request is never taken for a reply.
pub proof fn law_request_is_no_reply(mac: Seq<u8>, source: Ipv4Addr, target: Ipv4Addr)
    requires
        mac.len() == 6,
    ensures
        arp_reply_spec(arp_request_spec(mac, source, target)) is None,
{
    let b = arp_request_spec(mac, source, target);
    assert(b[20] == 0 && b[21] == 1);
}

/// Reads an ARP reply. Requests and other frames are normal background traffic on a
/// raw datalink channel and are ignored.
pub fn parse_arp_reply(b: &[u8]) -> (r: Option<ArpHit>)
    ensures
        r.deep_view() == arp_reply_spec(b@),
{
    if b.len() < 42 || be16(b, 12) != 0x0806 || be16(b, 20) != 2 {
        return None;
    }
    Some(
        ArpHit {
            ip: Ipv4Addr { bits: be32(b, 28) },
            mac: colon_hex(vstd::slice::slice_subrange(b, 22, 28)),
            interface: None,
        },
    )
}

/// Every character is a hexadecimal digit or a separator of a MAC address.
pub open spec fn mac_chars(s: Seq<char>) -> bool {
    forall|i: int|
        0 <= i < s.len() ==> text::is_hex_digit(#[trigger] s[i]) || s[i] == ':' || s[i] == '-'
}

/// The text looks like a MAC address: twelve hexadecimal digits and separators.
pub open spec fn mac_like(s: Seq<char>) -> bool {
    text::hex_digits_spec(s).len() == 12 && mac_chars(s)
}

/// Reports whether a text looks like a MAC address.
fn is_mac_like(s: &[char]) -> (r: bool)
    ensures
        r == mac_like(s@),
{
    if hex_digits(s).len() != 12 {
        return false;
    }
    let mut i: usize = 0;
    while i < s.len()
        invariant
            i <= s@.len(),
            text::hex_digits_spec(s@).len() == 12,
            forall|k: int|
                0 <= k < i ==> text::is_hex_digit(#[trigger] s@[k]) || s@[k] == ':' || s@[k] == '-',
        decreases s@.len() - i,
    {
        if !hex_digit(s[i]) && s[i] != ':' && s[i] != '-' {
            return false;
        }
        i = i + 1;
    }
    true
}

/// The address in the first parentheses.
pub open spec fn parenthesized_ip(line: Seq<char>) -> Option<Ipv4Addr> {
    let open = text::char_index(line, '(');
    if open < line.len() {
        let rest = line.skip(open + 1);
        let close = text::char_index(rest, ')');
        if close < rest.len() {
            addr::parse_ipv4_spec(rest.take(close))
        } else {
            None
        }
    } else {
        None
    }
}

/// Reads the address in the first parentheses.
fn parse_parenthesized_ip(line: &[char]) -> (r: Option<Ipv4Addr>)
    ensures
        r == parenthesized_ip(line@),
{
    let open: usize = find_char(line, '(');
    if open >= line.len() {
        return None;
    }
    let rest = vstd::slice::slice_subrange(line, open + 1, line.len());
    proof {
        assert(rest@ =~= line@.skip(open + 1));
    }
    let close: usize = find_char(rest, ')');
    if close >= rest.len() {
        return None;
    }
    let inner = vstd::slice::slice_subrange(rest, 0, close);
    proof {
        assert(inner@ =~= rest@.take(close as int));
    }
    parse_ipv4(inner)
}

/// The first word of a text.
pub open spec fn first_word(line: Seq<char>) -> Option<Seq<char>> {
    let w = text::words_spec(line);
    if w.len() > 0 {
        Some(w[0])
    } else {
        None
    }
}

/// Finds the first word of a text.
fn leading_word<'a>(line: &'a [char]) -> (r: Option<&'a [char]>)
    ensures
        text::slice_opt(r) == first_word(line@),
{
    let w = words(line);
    let ghost views = text::slice_views(w@);
    if w.len() > 0 {
        proof {
            assert(views[0] == w@[0]@);
        }
        Some(w[0])
    } else {
        None
    }
}

/// The address of a table line: in parentheses, as macOS and the BSDs print it, or as
/// the first word, as Linux does.
pub open spec fn line_ip(line: Seq<char>) -> Option<Ipv4Addr> {
    match parenthesized_ip(line) {
        Some(ip) => Some(ip),
        None => match first_word(line) {
            Some(w) => addr::parse_ipv4_spec(w),
            None => None,
        },
    }
}

/// The MAC address after " at ".
pub open spec fn mac_after_at(line: Seq<char>) -> Option<Seq<char>> {
    match dhcp::after_text(line, " at "@) {
        Some(rest) => match first_word(rest) {
            Some(w) => if mac_like(w) {
                Some(text::lower_spec(w))
            } else {
                None
            },
            None => None,
        },
        None => None,
    }
}

/// Reads the MAC address after " at ".
fn parse_mac_after_at(line: &[char]) -> (r: Option<String>)
    ensures
        r.deep_view() == mac_after_at(line@),
{
    let rest = rest_after(line, " at ")?;
    let word = leading_word(rest)?;
    if is_mac_like(word) {
        Some(text(lower(word).as_slice()))
    } else {
        None
    }
}

/// The first MAC address that follows the word "lladdr".
pub open spec fn neigh_mac(w: Seq<Seq<char>>) -> Option<Seq<char>>
    decreases w.len(),
{
    if w.len() == 0 {
        None
    } else if w[0] == "lladdr"@ {
        if w.len() < 2 {
            None
        } else if mac_like(w[1]) {
            Some(text::lower_spec(w[1]))
        } else {
            neigh_mac(w.skip(2))
        }
    } else {
        neigh_mac(w.drop_first())
    }
}

/// Reads the MAC address that follows the word "lladdr".
fn parse_linux_neigh_mac(line: &[char]) -> (r: Option<String>)
    ensures
        r.deep_view() == neigh_mac(text::words_spec(line@)),
{
    let w = words(line);
    let ghost views = text::slice_views(w@);
    let total: usize = w.len();
    let mut i: usize = 0;
    proof {
        assert(views.skip(0) =~= views);
    }
    while i < total
        invariant
            i <= total,
            total == w@.len(),
            views == text::slice_views(w@),
            views == text::words_spec(line@),
            neigh_mac(views) == neigh_mac(views.skip(i as int)),
        decreases total - i,
    {
        proof {
            assert(views.skip(i as int)[0] == w@[i as int]@);
            assert(views.skip(i as int).drop_first() =~= views.skip(i + 1));
        }
        if is_text(w[i], "lladdr") {
            if total - i < 2 {
                return None;
            }
            proof {
                assert(views.skip(i as int)[1] == w@[i + 1]@);
                assert(views.skip(i as int).skip(2) =~= views.skip(i + 2));
            }
            if is_mac_like(w[i + 1]) {
                return Some(text(lower(w[i + 1]).as_slice()));
            }
            i = i + 2;
        } else {
            i = i + 1;
        }
    }
    None
}

/// The interface of a table line: after "dev" or after " on ".
pub open spec fn line_interface(line: Seq<char>) -> Option<Seq<char>> {
    match net::word_after(text::words_spec(line), "dev"@) {
        Some(name) => Some(name),
        None => match dhcp::after_text(line, " on "@) {
            Some(rest) => first_word(rest),
            None => None,
        },
    }
}

/// Reads the interface of a table line.
fn parse_arp_table_interface(line: &[char]) -> (r: Option<String>)
    ensures
        r.deep_view() == line_interface(line@),
{
    if let Some(name) = value_after_token(line, "dev") {
        return Some(text(name));
    }
    let rest = rest_after(line, " on ")?;
    let name = leading_word(rest)?;
    Some(text(name))
}

/// What a line of a neighbor table says.
pub open spec fn arp_line_spec(line: Seq<char>) -> Option<ArpHitView> {
    let mac = match mac_after_at(line) {
        Some(mac) => Some(mac),
        None => neigh_mac(text::words_spec(line)),
    };
    match (line_ip(line), mac) {
        (Some(ip), Some(mac)) => Some(ArpHitView { ip, mac, interface: line_interface(line) }),
        _ => None,
    }
}

/// Reads a line of a neighbor table. macOS and the BSDs print `? (ip) at mac`, Linux
/// prints `ip dev ... lladdr mac`.
fn parse_arp_table_line(line: &[char]) -> (r: Option<ArpHit>)
    ensures
        r.deep_view() == arp_line_spec(line@),
{
    let ip = match parse_parenthesized_ip(line) {
        Some(ip) => ip,
        None => {
            let word = leading_word(line)?;
            parse_ipv4(word)?
        },
    };
    let mac = match parse_mac_after_at(line) {
        Some(mac) => mac,
        None => parse_linux_neigh_mac(line)?,
    };
    Some(ArpHit { ip, mac, interface: parse_arp_table_interface(line) })
}

/// What several lines of a neighbor table say.
pub open spec fn arp_lines_spec(all: Seq<Seq<char>>) -> Seq<ArpHitView>
    decreases all.len(),
{
    if all.len() == 0 {
        seq![]
    } else {
        let before = arp_lines_spec(all.drop_last());
        match arp_line_spec(all.last()) {
            Some(hit) => before.push(hit),
            None => before,
        }
    }
}

/// Reads a neighbor table.
pub fn parse_arp_table(output: &str) -> (r: Vec<ArpHit>)
    ensures
        r.deep_view() == arp_lines_spec(text::lines_spec(output@)),
{
    let c = chars(output);
    let all = lines(c.as_slice());
    let ghost views = text::slice_views(all@);
    let mut hits: Vec<ArpHit> = Vec::new();
    let mut i: usize = 0;
    proof {
        assert(hits.deep_view() =~= seq![]);
    }
    while i < all.len()
        invariant
            i <= all@.len(),
            views == text::slice_views(all@),
            hits.deep_view() == arp_lines_spec(views.take(i as int)),
        decreases all@.len() - i,
    {
        proof {
            assert(views.take(i + 1).drop_last() =~= views.take(i as int));
            assert(views.take(i + 1).last() == all@[i as int]@);
        }
        let ghost before = hits.deep_view();
        match parse_arp_table_line(all[i]) {
            Some(hit) => {
                let ghost view = hit@;
                hits.push(hit);
                proof {
                    assert(hits.deep_view() =~= before.push(view));
                }
            },
            None => {},
        }
        i = i + 1;
    }
    proof {
        assert(views.take(i as int) =~= views);
    }
    hits
}

/// Hosts by address.
pub struct HitByAddress {}

impl SortOrder<ArpHit> for HitByAddress {
    open spec fn before(a: ArpHitView, b: ArpHitView) -> bool {
        a.ip.bits < b.ip.bits
    }

    fn comes_before(a: &ArpHit, b: &ArpHit) -> (r: bool) {
        a.ip.bits < b.ip.bits
    }

    proof fn asymmetric(a: ArpHitView, b: ArpHitView) {
    }

    proof fn transitive(a: ArpHitView, b: ArpHitView, c: ArpHitView) {
    }
}

/// The position of the host with an address, or the length when there is none.
pub open spec fn hit_place(hits: Seq<ArpHitView>, ip: Ipv4Addr) -> int
    decreases hits.len(),
{
    if hits.len() == 0 || hits[0].ip == ip {
        0
    } else {
        1 + hit_place(hits.drop_first(), ip)
    }
}

/// A host with this address has answered.
pub open spec fn has_hit(hits: Seq<ArpHitView>, ip: Ipv4Addr) -> bool {
    hit_place(hits, ip) < hits.len()
}

/// Finds the host with an address.
fn find_hit(hits: &Vec<ArpHit>, ip: Ipv4Addr) -> (r: usize)
    ensures
        r == hit_place(hits.deep_view(), ip),
        r <= hits@.len(),
{
    let ghost views = hits.deep_view();
    let mut i: usize = 0;
    proof {
        assert(views.skip(0) =~= views);
    }
    while i < hits.len()
        invariant
            i <= hits@.len(),
            views == hits.deep_view(),
            hit_place(views, ip) == i + hit_place(views.skip(i as int), ip),
        decreases hits@.len() - i,
    {
        proof {
            assert(views.skip(i as int)[0] == hits@[i as int]@);
            assert(views.skip(i as int).drop_first() =~= views.skip(i + 1));
        }
        if hits[i].ip == ip {
            return i;
        }
        i = i + 1;
    }
    i
}

/// The hosts after one more; a host that was there is replaced.
pub open spec fn with_latest(hits: Seq<ArpHitView>, hit: ArpHitView) -> Seq<ArpHitView> {
    let k = hit_place(hits, hit.ip);
    if k < hits.len() {
        hits.update(k, hit)
    } else {
        sort::insert_spec::<ArpHit, HitByAddress>(hits, hit)
    }
}

/// The line is about this target network and this interface.
pub open spec fn hit_matches(hit: ArpHitView, target: Ipv4Net, interface: Seq<char>) -> bool {
    target.contains_spec(hit.ip) && hit.interface == Some(interface)
}

/// Reports whether a line is about this target network and this interface.
pub fn arp_hit_matches_target_interface(hit: &ArpHit, target: Ipv4Net, interface: &str) -> (r: bool)
    requires
        target.valid(),
    ensures
        r == hit_matches(hit@, target, interface@),
{
    target.contains(hit.ip) && match &hit.interface {
        Some(name) => str_eq(name.as_str(), interface),
        None => false,
    }
}

/// The hosts after several lines, as far as they are about the target network and the
/// interface.
pub open spec fn with_table(
    hits: Seq<ArpHitView>,
    found: Seq<ArpHitView>,
    target: Ipv4Net,
    interface: Seq<char>,
) -> Seq<ArpHitView>
    decreases found.len(),
{
    if found.len() == 0 {
        hits
    } else {
        let before = with_table(hits, found.drop_last(), target, interface);
        if hit_matches(found.last(), target, interface) {
            with_latest(before, found.last())
        } else {
            before
        }
    }
}

/// The hosts of several neighbor tables.
pub open spec fn arp_table_spec(
    outputs: Seq<Seq<char>>,
    target: Ipv4Net,
    interface: Seq<char>,
) -> Seq<ArpHitView>
    decreases outputs.len(),
{
    if outputs.len() == 0 {
        seq![]
    } else {
        with_table(
            arp_table_spec(outputs.drop_last(), target, interface),
            arp_lines_spec(text::lines_spec(outputs.last())),
            target,
            interface,
        )
    }
}

/// Adds the hosts of one neighbor table.
fn add_table(hits: &mut Vec<ArpHit>, found: &Vec<ArpHit>, target: Ipv4Net, interface: &str)
    requires
        target.valid(),
    ensures
        final(hits).deep_view() == with_table(
            old(hits).deep_view(),
            found.deep_view(),
            target,
            interface@,
        ),
{
    let ghost views = found.deep_view();
    let ghost start = hits.deep_view();
    let mut i: usize = 0;
    while i < found.len()
        invariant
            i <= found@.len(),
            target.valid(),
            views == found.deep_view(),
            hits.deep_view() == with_table(start, views.take(i as int), target, interface@),
        decreases found@.len() - i,
    {
        proof {
            assert(views.take(i + 1).drop_last() =~= views.take(i as int));
            assert(views.take(i + 1).last() == found@[i as int]@);
        }
        let hit = &found[i];
        if arp_hit_matches_target_interface(hit, target, interface) {
            let ghost before = hits.deep_view();
            let k: usize = find_hit(hits, hit.ip);
            if k < hits.len() {
                hits.set(k, hit.clone());
                proof {
                    assert(hits.deep_view() =~= before.update(k as int, hit@));
                }
            } else {
                insert::<ArpHit, HitByAddress>(hits, hit.clone());
            }
        }
        i = i + 1;
    }
    proof {
        assert(views.take(i as int) =~= views);
    }
}

/// Reads the hosts of several neighbor tables, each the output of a command that
/// succeeded.
pub fn arp_table(outputs: &Vec<String>, target: Ipv4Net, interface: &str) -> (r: Vec<ArpHit>)
    requires
        target.valid(),
    ensures
        r.deep_view() == arp_table_spec(outputs.deep_view(), target, interface@),
{
    let ghost views = outputs.deep_view();
    let mut hits: Vec<ArpHit> = Vec::new();
    let mut i: usize = 0;
    proof {
        assert(hits.deep_view() =~= seq![]);
    }
    while i < outputs.len()
        invariant
            i <= outputs@.len(),
            target.valid(),
            views == outputs.deep_view(),
            hits.deep_view() == arp_table_spec(views.take(i as int), target, interface@),
        decreases outputs@.len() - i,
    {
        proof {
            assert(views.take(i + 1).drop_last() =~= views.take(i as int));
            assert(views.take(i + 1).last() == outputs@[i as int]@);
        }
        let found = parse_arp_table(outputs[i].as_str());
        add_table(&mut hits, &found, target, interface);
        i = i + 1;
    }
    proof {
        assert(views.take(i as int) =~= views);
    }
    hits
}

/// Every address but this.
pub open spec fn other_than(source: Ipv4Addr) -> spec_fn(Ipv4Addr) -> bool {
    |ip: Ipv4Addr| ip != source
}

/// The hosts to ask: those of the network but the one that asks.
pub open spec fn target_hosts_spec(target: Ipv4Net, source: Ipv4Addr) -> Seq<Ipv4Addr> {
    target.hosts_spec().filter(other_than(source))
}

/// Lists the hosts to ask.
pub fn arp_target_hosts(target: Ipv4Net, source: Ipv4Addr) -> (r: Vec<Ipv4Addr>)
    requires
        target.valid(),
    ensures
        r@ == target_hosts_spec(target, source),
{
    let all = target.hosts();
    let ghost wanted = other_than(source);
    let mut out: Vec<Ipv4Addr> = Vec::new();
    let mut i: usize = 0;
    proof {
        reveal(Seq::filter);
        assert(all@.take(0).filter(wanted) =~= seq![]);
    }
    while i < all.len()
        invariant
            i <= all@.len(),
            wanted == other_than(source),
            out@ == all@.take(i as int).filter(wanted),
        decreases all@.len() - i,
    {
        proof {
            reveal(Seq::filter);
            assert(all@.take(i + 1).drop_last() =~= all@.take(i as int));
        }
        if all[i] != source {
            out.push(all[i]);
        }
        i = i + 1;
    }
    proof {
        assert(all@.take(i as int) =~= all@);
    }
    out
}

/// The addresses from which no answer came.
pub open spec fn unanswered(hits: Seq<ArpHitView>) -> spec_fn(Ipv4Addr) -> bool {
    |ip: Ipv4Addr| !has_hit(hits, ip)
}

/// The hosts that have not answered.
pub open spec fn unresolved_spec(targets: Seq<Ipv4Addr>, hits: Seq<ArpHitView>) -> Seq<Ipv4Addr> {
    targets.filter(unanswered(hits))
}

/// Lists the hosts that have not answered.
pub fn unresolved_targets(targets: &Vec<Ipv4Addr>, hits: &Vec<ArpHit>) -> (r: Vec<Ipv4Addr>)
    ensures
        r@ == unresolved_spec(targets@, hits.deep_view()),
{
    let ghost views = hits.deep_view();
    let ghost wanted = unanswered(views);
    let mut out: Vec<Ipv4Addr> = Vec::new();
    let mut i: usize = 0;
    proof {
        reveal(Seq::filter);
        assert(targets@.take(0).filter(wanted) =~= seq![]);
    }
    while i < targets.len()
        invariant
            i <= targets@.len(),
            views == hits.deep_view(),
            wanted == unanswered(views),
            out@ == targets@.take(i as int).filter(wanted),
        decreases targets@.len() - i,
    {
        proof {
            reveal(Seq::filter);
            assert(targets@.take(i + 1).drop_last() =~= targets@.take(i as int));
        }
        if find_hit(hits, targets[i]) >= hits.len() {
            out.push(targets[i]);
        }
        i = i + 1;
    }
    proof {
        assert(targets@.take(i as int) =~= targets@);
    }
    out
}

/// The size of the bursts for so many hosts.
pub open spec fn batch_size_spec(hosts: int) -> int {
    if hosts <= 256 {
        16
    } else if hosts <= 4096 {
        32
    } else if hosts <= 16384 {
        64
    } else {
        128
    }
}

/// The size of the bursts. Wide ranges sent as one large burst can make some devices
/// skip replying at all; smaller bursts with a quick read in between are more
/// reliable.
pub fn arp_batch_size(hosts: usize) -> (r: usize)
    ensures
        r == batch_size_spec(hosts as int),
{
    if hosts <= 256 {
        16
    } else if hosts <= 4096 {
        32
    } else if hosts <= 16384 {
        64
    } else {
        128
    }
}

/// The number of passes for so many hosts within a timeout in milliseconds.
pub open spec fn passes_spec(hosts: int, timeout: int) -> int {
    if hosts <= batch_size_spec(hosts) || timeout < 800 {
        1
    } else if timeout >= 1800 {
        3
    } else {
        2
    }
}

/// The number of passes.
pub fn arp_retry_passes(hosts: usize, timeout: u64) -> (r: usize)
    ensures
        r == passes_spec(hosts as int, timeout as int),
{
    if hosts <= arp_batch_size(hosts) || timeout < 800 {
        1
    } else if timeout >= 1800 {
        3
    } else {
        2
    }
}

/// The hosts after a reply: one more where the packet is a reply of a host of the
/// target network that has not answered before.
pub open spec fn new_reply(
    packet: Seq<u8>,
    target: Ipv4Net,
    hits: Seq<ArpHitView>,
) -> Option<ArpHitView> {
    match arp_reply_spec(packet) {
        Some(hit) => if target.contains_spec(hit.ip) && !has_hit(hits, hit.ip) {
            Some(hit)
        } else {
            None
        },
        None => None,
    }
}

/// Records a reply, and gives back the host where it is new.
pub fn record_arp_reply(packet: &[u8], target: Ipv4Net, hits: &mut Vec<ArpHit>) -> (r: Option<
    ArpHit,
>)
    requires
        target.valid(),
    ensures
        r.deep_view() == new_reply(packet@, target, old(hits).deep_view()),
        final(hits).deep_view() == match new_reply(packet@, target, old(hits).deep_view()) {
            Some(hit) => sort::insert_spec::<ArpHit, HitByAddress>(old(hits).deep_view(), hit),
            None => old(hits).deep_view(),
        },
{
    let hit = parse_arp_reply(packet)?;
    if !target.contains(hit.ip) || find_hit(hits, hit.ip) < hits.len() {
        return None;
    }
    insert::<ArpHit, HitByAddress>(hits, hit.clone());
    Some(hit)
}

/// What the sweep does next.
pub enum ArpAction {
    /// Send a request to each of these hosts.
    Send(Vec<Ipv4Addr>),
    /// Receive replies for so many milliseconds.
    Receive(u64),
    /// The sweep is over.
    Finished,
}

/// The mathematical content of an [`ArpAction`].
pub enum ArpActionView {
    Send(Seq<Ipv4Addr>),
    Receive(u64),
    Finished,
}

impl View for ArpAction {
    type V = ArpActionView;

    open spec fn view(&self) -> ArpActionView {
        match self {
            ArpAction::Send(hosts) => ArpActionView::Send(hosts@),
            ArpAction::Receive(window) => ArpActionView::Receive(*window),
            ArpAction::Finished => ArpActionView::Finished,
        }
    }
}

/// Where the sweep stands.
#[derive(Clone, Copy, Debug, PartialEq, Eq, Structural)]
pub enum ArpStage {
    /// A pass is about to begin.
    PassStart,
    /// A burst is about to be sent.
    BatchStart,
    /// A burst was sent and replies are awaited.
    BatchSent,
    /// The last burst of the pass is done.
    PassEnd,
    /// The sweep is over.
    Over,
}

/// An ARP sweep: bursts of requests with a quick read after each, in a few passes over
/// the hosts that have not answered.
pub struct ArpSweep {
    pub target: Ipv4Net,
    pub targets: Vec<Ipv4Addr>,
    pub timeout: u64,
    pub passes: usize,
    pub pass: usize,
    pub batch_size: usize,
    pub queue: Vec<Ipv4Addr>,
    pub position: usize,
    pub stage: ArpStage,
    pub hits: Vec<ArpHit>,
}

/// The mathematical content of an [`ArpSweep`].
#[verifier::ext_equal]
pub struct ArpSweepView {
    pub target: Ipv4Net,
    pub targets: Seq<Ipv4Addr>,
    pub timeout: u64,
    pub passes: usize,
    pub pass: usize,
    pub batch_size: usize,
    pub queue: Seq<Ipv4Addr>,
    pub position: usize,
    pub stage: ArpStage,
    pub hits: Seq<ArpHitView>,
}

impl View for ArpSweep {
    type V = ArpSweepView;

    open spec fn view(&self) -> ArpSweepView {
        ArpSweepView {
            target: self.target,
            targets: self.targets@,
            timeout: self.timeout,
            passes: self.passes,
            pass: self.pass,
            batch_size: self.batch_size,
            queue: self.queue@,
            position: self.position,
            stage: self.stage,
            hits: self.hits.deep_view(),
        }
    }
}

/// The smaller of two windows.
pub open spec fn shorter(a: u64, b: u64) -> u64 {
    if a < b {
        a
    } else {
        b
    }
}

impl ArpSweepView {
    /// The sweep before its first action.
    pub open spec fn start(target: Ipv4Net, source: Ipv4Addr, timeout: u64) -> ArpSweepView {
        let targets = target_hosts_spec(target, source);
        ArpSweepView {
            target,
            targets,
            timeout,
            passes: passes_spec(targets.len() as int, timeout as int) as usize,
            pass: 0,
            batch_size: batch_size_spec(targets.len() as int) as usize,
            queue: seq![],
            position: 0,
            stage: ArpStage::PassStart,
            hits: seq![],
        }
    }

    /// The sweep can go on: bursts are not empty, and a burst is only pending while
    /// hosts are left in the queue.
    pub open spec fn valid(self) -> bool {
        &&& self.target.valid()
        &&& self.batch_size >= ARP_MIN_BATCH_SIZE
        &&& self.targets.len() <= usize::MAX
        &&& self.queue.len() <= self.targets.len()
        &&& self.position <= self.queue.len()
        &&& self.pass <= self.passes
        &&& self.stage == ArpStage::BatchStart ==> self.position < self.queue.len()
        &&& self.stage == ArpStage::BatchStart || self.stage == ArpStage::BatchSent || self.stage
            == ArpStage::PassEnd ==> self.pass < self.passes
    }

    /// Where the next burst ends.
    pub open spec fn batch_end(self) -> int {
        if self.queue.len() - self.position < self.batch_size {
            self.queue.len() as int
        } else {
            self.position + self.batch_size
        }
    }

    /// The next action, and the sweep after it. A pass asks the hosts that have not
    /// answered when it begins, in bursts, each followed by a short read; the bursts
    /// of the next pass are half as large, and the last read lasts the timeout.
    pub open spec fn step(self) -> (ArpActionView, ArpSweepView) {
        match self.stage {
            ArpStage::PassStart => {
                let queue = unresolved_spec(self.targets, self.hits);
                if self.pass >= self.passes || queue.len() == 0 {
                    (ArpActionView::Finished, ArpSweepView { stage: ArpStage::Over, ..self })
                } else {
                    ArpSweepView { queue, position: 0, ..self }.send()
                }
            },
            ArpStage::BatchStart => self.send(),
            ArpStage::BatchSent => (
                ArpActionView::Receive(shorter(self.timeout, ARP_INTER_BATCH_RECEIVE_WINDOW)),
                ArpSweepView {
                    stage: if self.position < self.queue.len() {
                        ArpStage::BatchStart
                    } else {
                        ArpStage::PassEnd
                    },
                    ..self
                },
            ),
            ArpStage::PassEnd => (
                ArpActionView::Receive(
                    if self.pass + 1 == self.passes {
                        self.timeout
                    } else {
                        shorter(self.timeout, ARP_INTER_PASS_RECEIVE_WINDOW)
                    },
                ),
                ArpSweepView {
                    pass: (self.pass + 1) as usize,
                    batch_size: if self.batch_size / 2 < ARP_MIN_BATCH_SIZE {
                        ARP_MIN_BATCH_SIZE
                    } else {
                        self.batch_size / 2
                    },
                    stage: ArpStage::PassStart,
                    ..self
                },
            ),
            ArpStage::Over => (ArpActionView::Finished, self),
        }
    }

    /// The next burst, and the sweep after it.
    pub open spec fn send(self) -> (ArpActionView, ArpSweepView) {
        (
            ArpActionView::Send(self.queue.subrange(self.position as int, self.batch_end())),
            ArpSweepView {
                position: self.batch_end() as usize,
                stage: ArpStage::BatchSent,
                ..self
            },
        )
    }

    /// How far the sweep is from its end: passes, then hosts, then actions.
    pub open spec fn left(self) -> (int, int, int) {
        (
            self.passes - self.pass,
            if self.stage == ArpStage::PassStart {
                1int + self.targets.len()
            } else {
                self.queue.len() - self.position
            },
            match self.stage {
                ArpStage::PassStart => 4,
                ArpStage::BatchStart => 2,
                ArpStage::BatchSent => 3,
                ArpStage::PassEnd => 1,
                ArpStage::Over => 0,
            },
        )
    }
}

impl ArpSweep {
    /// A sweep of the hosts of a network but the one that asks.
    pub fn new(target: Ipv4Net, source: Ipv4Addr, timeout: u64) -> (r: Self)
        requires
            target.valid(),
        ensures
            r@ == ArpSweepView::start(target, source, timeout),
            r@.valid(),
    {
        let targets = arp_target_hosts(target, source);
        let passes: usize = arp_retry_passes(targets.len(), timeout);
        let batch_size: usize = arp_batch_size(targets.len());
        let r = ArpSweep {
            target,
            targets,
            timeout,
            passes,
            pass: 0,
            batch_size,
            queue: Vec::new(),
            position: 0,
            stage: ArpStage::PassStart,
            hits: Vec::new(),
        };
        proof {
            assert(r.hits.deep_view() =~= seq![]);
            assert(r@ =~= ArpSweepView::start(target, source, timeout));
        }
        r
    }

    /// Takes the next burst from the queue.
    fn take_batch(&mut self) -> (r: ArpAction)
        requires
            old(self)@.batch_size >= ARP_MIN_BATCH_SIZE,
            old(self)@.position <= old(self)@.queue.len(),
        ensures
            (r@, final(self)@) == old(self)@.send(),
    {
        let total: usize = self.queue.len();
        let end: usize = if total - self.position < self.batch_size {
            total
        } else {
            self.position + self.batch_size
        };
        let start: usize = self.position;
        let mut batch: Vec<Ipv4Addr> = Vec::new();
        let mut i: usize = start;
        while i < end
            invariant
                start <= i <= end,
                end <= self.queue@.len(),
                batch@ == self.queue@.subrange(start as int, i as int),
            decreases end - i,
        {
            batch.push(self.queue[i]);
            i = i + 1;
            proof {
                assert(batch@ =~= self.queue@.subrange(start as int, i as int));
            }
        }
        self.position = end;
        self.stage = ArpStage::BatchSent;
        ArpAction::Send(batch)
    }

    /// Decides what to do next.
    pub fn next_action(&mut self) -> (r: ArpAction)
        requires
            old(self)@.valid(),
        ensures
            (r@, final(self)@) == old(self)@.step(),
            final(self)@.valid(),
    {
        match self.stage {
            ArpStage::PassStart => {
                let queue = unresolved_targets(&self.targets, &self.hits);
                if self.pass >= self.passes || queue.len() == 0 {
                    self.stage = ArpStage::Over;
                    ArpAction::Finished
                } else {
                    proof {
                        self.targets@.lemma_filter_len(unanswered(self.hits.deep_view()));
                    }
                    self.queue = queue;
                    self.position = 0;
                    self.take_batch()
                }
            },
            ArpStage::BatchStart => self.take_batch(),
            ArpStage::BatchSent => {
                self.stage = if self.position < self.queue.len() {
                    ArpStage::BatchStart
                } else {
                    ArpStage::PassEnd
                };
                ArpAction::Receive(
                    if self.timeout < ARP_INTER_BATCH_RECEIVE_WINDOW {
                        self.timeout
                    } else {
                        ARP_INTER_BATCH_RECEIVE_WINDOW
                    },
                )
            },
            ArpStage::PassEnd => {
                let window: u64 = if self.pass + 1 == self.passes {
                    self.timeout
                } else if self.timeout < ARP_INTER_PASS_RECEIVE_WINDOW {
                    self.timeout
                } else {
                    ARP_INTER_PASS_RECEIVE_WINDOW
                };
                self.pass = self.pass + 1;
                self.batch_size = if self.batch_size / 2 < ARP_MIN_BATCH_SIZE {
                    ARP_MIN_BATCH_SIZE
                } else {
                    self.batch_size / 2
                };
                self.stage = ArpStage::PassStart;
                ArpAction::Receive(window)
            },
            ArpStage::Over => ArpAction::Finished,
        }
    }

    /// Takes in a packet, and gives back the host where it is new.
    pub fn receive(&mut self, packet: &[u8]) -> (r: Option<ArpHit>)
        requires
            old(self)@.valid(),
        ensures
            r.deep_view() == new_reply(packet@, old(self)@.target, old(self)@.hits),
            final(self)@ == (ArpSweepView {
                hits: match new_reply(packet@, old(self)@.target, old(self)@.hits) {
                    Some(hit) => sort::insert_spec::<ArpHit, HitByAddress>(old(self)@.hits, hit),
                    None => old(self)@.hits,
                },
                ..old(self)@
            }),
            final(self)@.valid(),
    {
        record_arp_reply(packet, self.target, &mut self.hits)
    }
}

/// A sweep ends: every action but the last brings it nearer to its end, whatever was
/// received before it.
pub proof fn law_sweep_ends(s: ArpSweepView)
    requires
        s.valid(),
        s.stage != ArpStage::Over,
    ensures
        ({
            let (action, next) = s.step();
            ||| action is Finished && next.stage == ArpStage::Over
            ||| decreases_to!(
                s.left().0, s.left().1, s.left().2 => next.left().0, next.left().1, next.left().2
            )
        }),
        s.step().1.valid(),
{
    s.targets.lemma_filter_len(unanswered(s.hits));
}

/// A pass asks every host that had not answered when it began, in order and once: the
/// bursts put together are the queue.
pub proof fn law_bursts_cover_the_queue(s: ArpSweepView)
    requires
        s.valid(),
        s.stage == ArpStage::BatchStart,
    ensures
        s.step().0 matches ArpActionView::Send(batch) && {
            &&& batch.len() > 0
            &&& s.queue.take(s.position as int) + batch == s.queue.take(s.step().1.position as int)
            &&& s.step().1.queue == s.queue
        },
{
    let batch = s.queue.subrange(s.position as int, s.batch_end());
    assert(s.queue.take(s.position as int) + batch =~= s.queue.take(s.batch_end()));
}

/// A host that has answered is not asked again.
pub proof fn law_answered_hosts_are_not_asked_again(
    targets: Seq<Ipv4Addr>,
    hits: Seq<ArpHitView>,
    ip: Ipv4Addr,
)
    requires
        has_hit(hits, ip),
    ensures
        !unresolved_spec(targets, hits).contains(ip),
{
    if unresolved_spec(targets, hits).contains(ip) {
        targets.lemma_filter_contains_rev(unanswered(hits), ip);
        assert(unanswered(hits)(ip));
    }
}

/// Every host that answered lies in the network.
pub open spec fn in_range(target: Ipv4Net, hits: Seq<ArpHitView>) -> bool {
    forall|i: int| 0 <= i < hits.len() ==> target.contains_spec((#[trigger] hits[i]).ip)
}

/// A sweep records hosts of its target network only, and each once.
pub proof fn law_replies_stay_in_range(packet: Seq<u8>, target: Ipv4Net, hits: Seq<ArpHitView>)
    requires
        in_range(target, hits),
    ensures
        new_reply(packet, target, hits) matches Some(hit) ==> {
            &&& !has_hit(hits, hit.ip)
            &&& in_range(target, sort::insert_spec::<ArpHit, HitByAddress>(hits, hit))
        },
{
    if let Some(hit) = new_reply(packet, target, hits) {
        let all = sort::insert_spec::<ArpHit, HitByAddress>(hits, hit);
        assert forall|i: int| 0 <= i < all.len() implies target.contains_spec(
            (#[trigger] all[i]).ip,
        ) by {
            assert(all.contains(all[i]));
            sort::lemma_insert_members::<ArpHit, HitByAddress>(hits, hit, all[i]);
            if all[i] != hit {
                let k = choose|k: int| 0 <= k < hits.len() && hits[k] == all[i];
                assert(target.contains_spec(hits[k].ip));
            }
        }
    }
}

/// The place of a host is a position of the list or its end.
proof fn lemma_hit_place(hits: Seq<ArpHitView>, ip: Ipv4Addr)
    ensures
        0 <= hit_place(hits, ip) <= hits.len(),
    decreases hits.len(),
{
    if hits.len() > 0 && hits[0].ip != ip {
        lemma_hit_place(hits.drop_first(), ip);
    }
}

/// The lines of one neighbor table that count lie in the target network.
proof fn lemma_table_in_range(
    hits: Seq<ArpHitView>,
    found: Seq<ArpHitView>,
    target: Ipv4Net,
    interface: Seq<char>,
)
    requires
        forall|i: int| 0 <= i < hits.len() ==> hit_matches(#[trigger] hits[i], target, interface),
    ensures
        forall|i: int|
            0 <= i < with_table(hits, found, target, interface).len() ==> hit_matches(
                #[trigger] with_table(hits, found, target, interface)[i],
                target,
                interface,
            ),
    decreases found.len(),
{
    if found.len() > 0 {
        lemma_table_in_range(hits, found.drop_last(), target, interface);
        let before = with_table(hits, found.drop_last(), target, interface);
        let all = with_table(hits, found, target, interface);
        let hit = found.last();
        if hit_matches(hit, target, interface) {
            let k = hit_place(before, hit.ip);
            lemma_hit_place(before, hit.ip);
            assert forall|i: int| 0 <= i < all.len() implies hit_matches(
                #[trigger] all[i],
                target,
                interface,
            ) by {
                if k < before.len() {
                    if all[i] != hit {
                        assert(all[i] == before[i]);
                    }
                } else {
                    assert(all.contains(all[i]));
                    sort::lemma_insert_members::<ArpHit, HitByAddress>(before, hit, all[i]);
                    if all[i] != hit {
                        let m = choose|m: int| 0 <= m < before.len() && before[m] == all[i];
                        assert(hit_matches(before[m], target, interface));
                    }
                }
            }
        }
    }
}

/// The neighbor tables yield hosts of the target network and of the interface only.
pub proof fn law_neighbors_stay_in_range(
    outputs: Seq<Seq<char>>,
    target: Ipv4Net,
    interface: Seq<char>,
)
    ensures
        in_range(target, arp_table_spec(outputs, target, interface)),
        forall|i: int|
            0 <= i < arp_table_spec(outputs, target, interface).len() ==> hit_matches(
                #[trigger] arp_table_spec(outputs, target, interface)[i],
                target,
                interface,
            ),
    decreases outputs.len(),
{
    if outputs.len() > 0 {
        law_neighbors_stay_in_range(outputs.drop_last(), target, interface);
        lemma_table_in_range(
            arp_table_spec(outputs.drop_last(), target, interface),
            arp_lines_spec(text::lines_spec(outputs.last())),
            target,
            interface,
        );
    }
    let all = arp_table_spec(outputs, target, interface);
    assert forall|i: int| 0 <= i < all.len() implies target.contains_spec((#[trigger] all[i]).ip) by {
        assert(hit_matches(all[i], target, interface));
    }
}

} // verus!
