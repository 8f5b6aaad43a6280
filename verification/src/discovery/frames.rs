//! What ARP frames and the lines of neighbor tables say.

use crate::addr::Ipv4Addr;
use crate::addr;
use crate::bytes;
use crate::dhcp::lines;
use crate::dhcp;
use crate::discovery;
use crate::net;
use crate::text::laws;
use crate::text;
use vstd::prelude::*;

verus! {

/// The address that four octets spell.
pub open spec fn octets(o: Seq<u8>) -> Ipv4Addr {
    Ipv4Addr { bits: (o[0] * 0x100_0000 + o[1] * 0x1_0000 + o[2] * 0x100 + o[3]) as u32 }
}

/// An ARP reply gives the address and the hardware address of its sender, and a frame of
/// another operation or another type gives nothing.
pub proof fn law_reply_names_its_sender(
    to: Seq<u8>,
    from: Seq<u8>,
    kind: u16,
    formats: Seq<u8>,
    operation: u16,
    sender_mac: Seq<u8>,
    sender: Seq<u8>,
    target_mac: Seq<u8>,
    target: Seq<u8>,
    padding: Seq<u8>,
)
    requires
        to.len() == 6,
        from.len() == 6,
        formats.len() == 6,
        sender_mac.len() == 6,
        sender.len() == 4,
        target_mac.len() == 6,
        target.len() == 4,
    ensures
        ({
            let read = discovery::arp_reply_spec(
                to + from + seq![(kind / 256) as u8, (kind % 256) as u8] + formats + seq![
                    (operation / 256) as u8,
                    (operation % 256) as u8,
                ] + sender_mac + sender + target_mac + target + padding,
            );
            &&& read is Some <==> kind == 0x0806 && operation == 2
            &&& read is Some ==> read->0.ip == octets(sender)
            &&& read is Some ==> read->0.mac == text::colon_hex_spec(sender_mac)
            &&& read is Some ==> read->0.interface is None
        }),
{
    let b = to + from + seq![(kind / 256) as u8, (kind % 256) as u8] + formats + seq![
        (operation / 256) as u8,
        (operation % 256) as u8,
    ] + sender_mac + sender + target_mac + target + padding;
    assert(bytes::be16_spec(b, 12) == kind);
    assert(bytes::be16_spec(b, 20) == operation);
    assert(b.subrange(22, 28) =~= sender_mac);
    assert(b[28] == sender[0] && b[29] == sender[1] && b[30] == sender[2] && b[31] == sender[3]);
}

/// An ARP request goes to everyone, names its sender twice and the sender's address, and
/// asks for the owner of the target.
pub proof fn law_request_asks_for_its_target(mac: Seq<u8>, source: Ipv4Addr, target: Ipv4Addr)
    requires
        mac.len() == 6,
    ensures
        ({
            let b = discovery::arp_request_spec(mac, source, target);
            &&& b.len() == 42
            &&& b.subrange(0, 6) == seq![0xffu8, 0xff, 0xff, 0xff, 0xff, 0xff]
            &&& b.subrange(6, 12) == mac
            &&& b.subrange(12, 22) == seq![0x08u8, 0x06, 0, 1, 0x08, 0, 6, 4, 0, 1]
            &&& b.subrange(22, 28) == mac
            &&& octets(b.subrange(28, 32)) == source
            &&& b.subrange(32, 38) == seq![0u8, 0, 0, 0, 0, 0]
            &&& octets(b.subrange(38, 42)) == target
        }),
{
    let b = discovery::arp_request_spec(mac, source, target);
    assert(b.subrange(0, 6) =~= seq![0xffu8, 0xff, 0xff, 0xff, 0xff, 0xff]);
    assert(b.subrange(6, 12) =~= mac);
    assert(b.subrange(12, 22) =~= seq![0x08u8, 0x06, 0, 1, 0x08, 0, 6, 4, 0, 1]);
    assert(b.subrange(22, 28) =~= mac);
    assert(b.subrange(28, 32) =~= bytes::be32_bytes(source.bits));
    assert(b.subrange(32, 38) =~= seq![0u8, 0, 0, 0, 0, 0]);
    assert(b.subrange(38, 42) =~= bytes::be32_bytes(target.bits));
}

/// Four words of a line, and more behind them.
proof fn lemma_words(a: Seq<char>, rest: Seq<char>)
    requires
        lines::word(a),
    ensures
        text::words_spec(a + seq![' '] + rest) == seq![a] + text::words_spec(rest),
{
    let none = Seq::<char>::empty();
    assert(laws::blank(none));
    laws::law_words_stand_between_white_space(none, a, ' ', rest);
    assert(none + a + seq![' '] + rest =~= a + seq![' '] + rest);
}

/// A line "address dev interface lladdr mac state" of a neighbor table gives the address,
/// the MAC address in lower case, and the interface.
pub proof fn law_neighbor_line_names_its_host(
    ip: Ipv4Addr,
    address: Seq<char>,
    interface: Seq<char>,
    mac: Seq<char>,
    state: Seq<char>,
)
    requires
        lines::word(address),
        addr::parse_ipv4_spec(address) == Some(ip),
        address != "lladdr"@,
        address != "dev"@,
        lines::word(interface),
        interface != "lladdr"@,
        lines::word(mac),
        discovery::mac_like(mac),
        lines::word(state),
        ({
            let line = address + seq![' '] + ("dev"@ + seq![' '] + (interface + seq![' '] + (
            "lladdr"@ + seq![' '] + (mac + seq![' '] + state))));
            !line.contains('(') && !text::contains_spec(line, " at "@)
        }),
    ensures
        ({
            let line = address + seq![' '] + ("dev"@ + seq![' '] + (interface + seq![' '] + (
            "lladdr"@ + seq![' '] + (mac + seq![' '] + state))));
            let read = discovery::arp_line_spec(line);
            &&& read is Some
            &&& read->0.ip == ip
            &&& read->0.mac == text::lower_spec(mac)
            &&& read->0.interface == Some(interface)
        }),
{
    let none = Seq::<char>::empty();
    let l5 = mac + seq![' '] + state;
    let l4 = "lladdr"@ + seq![' '] + l5;
    let l3 = interface + seq![' '] + l4;
    let l2 = "dev"@ + seq![' '] + l3;
    let line = address + seq![' '] + l2;
    assert(lines::word("lladdr"@)) by {
        reveal_strlit("lladdr");
    }
    assert(lines::word("dev"@) && "dev"@ != "lladdr"@) by {
        reveal_strlit("dev");
        reveal_strlit("lladdr");
    }
    lemma_words(address, l2);
    lemma_words("dev"@, l3);
    lemma_words(interface, l4);
    lemma_words("lladdr"@, l5);
    lemma_words(mac, state);
    assert(laws::blank(none));
    laws::law_words_stand_between_white_space(none, state, ' ', none);
    assert(none + state =~= state);
    let w = text::words_spec(line);
    assert(w =~= seq![address, "dev"@, interface, "lladdr"@, mac, state]);
    laws::lemma_char_nowhere(line, '(');
    text::lemma_text_index(line, " at "@);
    reveal_with_fuel(discovery::neigh_mac, 6);
    assert(w.drop_first() =~= seq!["dev"@, interface, "lladdr"@, mac, state]);
    assert(w.drop_first().drop_first() =~= seq![interface, "lladdr"@, mac, state]);
    assert(w.drop_first().drop_first().drop_first() =~= seq!["lladdr"@, mac, state]);
    reveal_with_fuel(net::word_after, 6);
}

/// A line of a neighbor table.
spec fn table_line(address: Seq<char>, mac: Seq<char>, interface: Seq<char>) -> Seq<char> {
    seq!['?', ' ', '('] + address + seq![')', ' ', 'a', 't', ' '] + mac + seq![' ', 'o', 'n', ' ']
        + interface
}

/// The address of a line.
proof fn lemma_table_ip(ip: Ipv4Addr, address: Seq<char>, mac: Seq<char>, interface: Seq<char>)
    requires
        !address.contains(')'),
        addr::parse_ipv4_spec(address) == Some(ip),
    ensures
        discovery::parenthesized_ip(table_line(address, mac, interface)) == Some(ip),
{
    let head = seq!['?', ' '];
    let tail = seq![' ', 'a', 't', ' '] + mac + seq![' ', 'o', 'n', ' '] + interface;
    let rest = address + seq![')'] + tail;
    assert(table_line(address, mac, interface) =~= head + seq!['('] + rest);
    assert(!head.contains('(')) by {
        assert(head[0] != '(' && head[1] != '(');
    }
    laws::lemma_char_behind(head, '(', rest);
    laws::lemma_char_behind(address, ')', tail);
}

/// The MAC address of a line.
proof fn lemma_table_mac(address: Seq<char>, mac: Seq<char>, interface: Seq<char>)
    requires
        lines::word(address),
        lines::word(mac),
        discovery::mac_like(mac),
    ensures
        discovery::mac_after_at(table_line(address, mac, interface)) == Some(
            text::lower_spec(mac),
        ),
{
    let line = table_line(address, mac, interface);
    let n = address.len() as int;
    let at = " at "@;
    let k = 4 + n;
    reveal_strlit(" at ");
    assert(at =~= seq![' ', 'a', 't', ' ']);
    assert(line.subrange(k, k + 4) =~= at);
    assert forall|j: int| 0 <= j < k implies #[trigger] line.subrange(j, j + at.len()) != at by {
        if line.subrange(j, j + at.len()) == at {
            assert(line.subrange(j, j + at.len())[0] == line[j]);
            assert(line.subrange(j, j + at.len())[1] == line[j + 1]);
            if 3 <= j < 3 + n {
                assert(line[j] == address[j - 3]);
            }
        }
    }
    text::lemma_first_occurrence(line, at, k);
    let tail = seq!['o', 'n', ' '] + interface;
    assert(line.skip(k + 4) =~= mac + seq![' '] + tail);
    lemma_words(mac, tail);
}

/// The interface of a line.
proof fn lemma_table_on(address: Seq<char>, mac: Seq<char>, interface: Seq<char>)
    requires
        lines::word(address),
        lines::word(mac),
        discovery::mac_like(mac),
        lines::word(interface),
    ensures
        dhcp::after_text(table_line(address, mac, interface), " on "@) == Some(interface),
        discovery::first_word(interface) == Some(interface),
{
    let none = Seq::<char>::empty();
    let line = table_line(address, mac, interface);
    let n = address.len() as int;
    let m = mac.len() as int;
    let on = " on "@;
    let k = 4 + n;
    let q = k + 4 + m;
    reveal_strlit(" on ");
    assert(on =~= seq![' ', 'o', 'n', ' ']);
    assert(line.subrange(q, q + 4) =~= on);
    assert(text::is_hex_digit(mac[0]) || mac[0] == ':' || mac[0] == '-');
    assert forall|j: int| 0 <= j < q implies #[trigger] line.subrange(j, j + on.len()) != on by {
        if line.subrange(j, j + on.len()) == on {
            assert(line.subrange(j, j + on.len())[0] == line[j]);
            assert(line.subrange(j, j + on.len())[1] == line[j + 1]);
            if 3 <= j < 3 + n {
                assert(line[j] == address[j - 3]);
            } else if j == k + 3 {
                assert(line[j + 1] == mac[0]);
            } else if k + 4 <= j < q {
                assert(line[j] == mac[j - k - 4]);
            }
        }
    }
    text::lemma_first_occurrence(line, on, q);
    assert(line.skip(q + 4) =~= interface);
    assert(laws::blank(none));
    laws::law_words_stand_between_white_space(none, interface, ' ', none);
    assert(none + interface =~= interface);
}

/// A line "? (address) at mac on interface" of a neighbor table gives the address, the MAC
/// address in lower case, and the interface.
pub proof fn law_table_line_names_its_host(
    ip: Ipv4Addr,
    address: Seq<char>,
    mac: Seq<char>,
    interface: Seq<char>,
)
    requires
        lines::word(address),
        !address.contains(')'),
        addr::parse_ipv4_spec(address) == Some(ip),
        lines::word(mac),
        discovery::mac_like(mac),
        lines::word(interface),
        interface != "dev"@,
    ensures
        ({
            let line = seq!['?', ' ', '('] + address + seq![')', ' ', 'a', 't', ' '] + mac + seq![
                ' ',
                'o',
                'n',
                ' ',
            ] + interface;
            let read = discovery::arp_line_spec(line);
            &&& read is Some
            &&& read->0.ip == ip
            &&& read->0.mac == text::lower_spec(mac)
            &&& read->0.interface == Some(interface)
        }),
{
    lemma_table_ip(ip, address, mac, interface);
    lemma_table_mac(address, mac, interface);
    lemma_table_on(address, mac, interface);
    lemma_table_words(table_line(address, mac, interface), address, mac, interface);
}

/// No word of a table line is "dev".
proof fn lemma_table_words(
    line: Seq<char>,
    address: Seq<char>,
    mac: Seq<char>,
    interface: Seq<char>,
)
    requires
        lines::word(address),
        lines::word(mac),
        discovery::mac_like(mac),
        lines::word(interface),
        interface != "dev"@,
        line == table_line(address, mac, interface),
    ensures
        net::word_after(text::words_spec(line), "dev"@) is None,
{
    let none = Seq::<char>::empty();
    reveal_strlit("dev");
    let a = seq!['?'];
    let b = seq!['('] + address + seq![')'];
    let c = seq!['a', 't'];
    let e = seq!['o', 'n'];
    let l5 = e + seq![' '] + interface;
    let l4 = mac + seq![' '] + l5;
    let l3 = c + seq![' '] + l4;
    let l2 = b + seq![' '] + l3;
    assert(line =~= a + seq![' '] + l2);
    assert(lines::word(a));
    assert(lines::word(b)) by {
        assert forall|i: int| 0 <= i < b.len() implies !text::is_space(#[trigger] b[i]) by {
            if 0 < i < b.len() - 1 {
                assert(b[i] == address[i - 1]);
            }
        }
    }
    assert(lines::word(c));
    assert(lines::word(e));
    lemma_words(a, l2);
    lemma_words(b, l3);
    lemma_words(c, l4);
    lemma_words(mac, l5);
    lemma_words(e, interface);
    assert(laws::blank(none));
    laws::law_words_stand_between_white_space(none, interface, ' ', none);
    assert(none + interface =~= interface);
    let w = text::words_spec(line);
    assert(w =~= seq![a, b, c, mac, e, interface]);
    assert(b[0] == '(');
    assert(mac != "dev"@) by {
        if mac == "dev"@ {
            assert(text::is_hex_digit(mac[2]) || mac[2] == ':' || mac[2] == '-');
        }
    }
    assert forall|i: int| 0 <= i < w.len() implies #[trigger] w[i] != "dev"@ by {}
    lemma_no_word(w, "dev"@);
}

/// A word that does not occur has none behind it.
proof fn lemma_no_word(w: Seq<Seq<char>>, x: Seq<char>)
    requires
        forall|i: int| 0 <= i < w.len() ==> #[trigger] w[i] != x,
    ensures
        net::word_after(w, x) is None,
    decreases w.len(),
{
    if w.len() > 0 {
        let tail = w.drop_first();
        assert forall|i: int| 0 <= i < tail.len() implies #[trigger] tail[i] != x by {
            assert(tail[i] == w[i + 1]);
        }
        lemma_no_word(tail, x);
    }
}

} // verus!
