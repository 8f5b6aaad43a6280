//! What NetBIOS node status answers, reverse lookups, and the vendor table say.

use crate::addr::spelled;
use crate::addr::{IpAddr, Ipv4Addr};
use crate::bytes;
use crate::enrich::netbios;
use crate::enrich::oui;
use crate::enrich::rdns;
use crate::text;
use crate::text_map::TextMapView;
use crate::text_map;
use vstd::prelude::*;

verus! {

/// An entry of a name table: fifteen bytes of name, a suffix, and two bytes of flags.
pub struct Entry {
    pub name: Seq<u8>,
    pub suffix: u8,
    pub high: u8,
    pub low: u8,
}

/// An entry on the wire.
pub open spec fn entry_wire(e: Entry) -> Seq<u8> {
    e.name + seq![e.suffix, e.high, e.low]
}

/// Entries on the wire.
pub open spec fn entries_wire(entries: Seq<Entry>) -> Seq<u8>
    decreases entries.len(),
{
    if entries.len() == 0 {
        seq![]
    } else {
        entry_wire(entries[0]) + entries_wire(entries.drop_first())
    }
}

/// The entry gives a machine its name: it belongs to no group, and names the machine, its
/// user, or its file server.
pub open spec fn gives(e: Entry, x: Seq<char>) -> bool {
    &&& e.high < 0x80
    &&& e.suffix == 0x00 || e.suffix == 0x03 || e.suffix == 0x20
    &&& x.len() > 0
    &&& x == text::trim_spec(text::utf8_lossy_spec(e.name))
}

/// Some entry gives a name.
pub open spec fn given(entries: Seq<Entry>, x: Seq<char>) -> bool {
    exists|i: int| 0 <= i < entries.len() && gives(#[trigger] entries[i], x)
}

/// The names after a table of entries.
proof fn lemma_table(names: Seq<Seq<char>>, entries: Seq<Entry>, x: Seq<char>)
    requires
        text::increasing(names),
        forall|i: int| 0 <= i < entries.len() ==> (#[trigger] entries[i]).name.len() == 15,
    ensures
        netbios::table_names(names, entries_wire(entries), entries.len()).contains(x)
            <==> names.contains(x) || given(entries, x),
    decreases entries.len(),
{
    if entries.len() > 0 {
        let e = entries[0];
        let tail = entries.drop_first();
        let b = entries_wire(entries);
        assert forall|i: int| 0 <= i < tail.len() implies (#[trigger] tail[i]).name.len() == 15 by {
            assert(tail[i] == entries[i + 1]);
        }
        let own = b.take(18);
        assert(own =~= entry_wire(e));
        assert(own.take(15) =~= e.name);
        assert(own[15] == e.suffix && own[16] == e.high && own[17] == e.low);
        assert(bytes::be16_spec(own, 16) == e.high * 256 + e.low);
        assert(b.skip(18) =~= entries_wire(tail));
        let between = match netbios::own_name(own) {
            Some(name) => text::insert_sorted_spec(names, name),
            None => names,
        };
        if netbios::own_name(own) is Some {
            text::lemma_insert_sorted(names, netbios::own_name(own)->0);
        }
        assert(between.contains(x) <==> names.contains(x) || gives(e, x));
        lemma_table(between, tail, x);
        if given(tail, x) {
            let i = choose|i: int| 0 <= i < tail.len() && gives(#[trigger] tail[i], x);
            assert(entries[i + 1] == tail[i]);
        }
        if given(entries, x) {
            let i = choose|i: int| 0 <= i < entries.len() && gives(#[trigger] entries[i], x);
            if i > 0 {
                assert(tail[i - 1] == entries[i]);
            }
        }
    }
}

/// An answer to a node status query says whom it answers, and exactly the names that the
/// entries of its table give the machine.
pub proof fn law_node_status_reads_back(
    id: Seq<u8>,
    flags: Seq<u8>,
    counts: Seq<u8>,
    name: Seq<u8>,
    class: Seq<u8>,
    ttl: Seq<u8>,
    entries: Seq<Entry>,
    statistics: Seq<u8>,
    x: Seq<char>,
)
    requires
        id.len() == 2,
        flags.len() == 2,
        counts.len() == 4,
        name.len() < 0xc0,
        class.len() == 2,
        ttl.len() == 4,
        entries.len() < 256,
        forall|i: int| 0 <= i < entries.len() ==> (#[trigger] entries[i]).name.len() == 15,
        1 + entries_wire(entries).len() + statistics.len() < 0x1_0000,
    ensures
        ({
            let n = 1 + entries_wire(entries).len() + statistics.len();
            let read = netbios::netbios_response_spec(
                id + flags + seq![0u8, 0u8, 0u8, 1u8] + counts + seq![name.len() as u8] + name
                    + seq![0u8, 0u8, 0x21u8] + class + ttl + seq![
                    (n / 256) as u8,
                    (n % 256) as u8,
                ] + seq![entries.len() as u8] + entries_wire(entries) + statistics,
            );
            &&& read.transaction_id == id[0] * 256 + id[1]
            &&& read.names.contains(x) <==> given(entries, x)
        }),
{
    let n = 1 + entries_wire(entries).len() + statistics.len();
    let table = seq![entries.len() as u8] + entries_wire(entries) + statistics;
    let b = id + flags + seq![0u8, 0u8, 0u8, 1u8] + counts + seq![name.len() as u8] + name + seq![
        0u8,
        0u8,
        0x21u8,
    ] + class + ttl + seq![(n / 256) as u8, (n % 256) as u8] + seq![entries.len() as u8]
        + entries_wire(entries) + statistics;
    let next = 14 + name.len() as int;
    let data = next + 10;
    assert(b.len() == data + n);
    assert(b[0] == id[0] && b[1] == id[1]);
    assert(b[4] == 0 && b[5] == 0 && b[6] == 0 && b[7] == 1);
    assert(b[12] == name.len());
    assert(b[13int + name.len()] == 0);
    assert(b[next] == 0 && b[next + 1] == 0x21);
    assert(b[next + 8] == n / 256 && b[next + 9] == n % 256);
    assert(bytes::be16_spec(b, next) == 0x21);
    assert(bytes::be16_spec(b, next + 8) == n);
    assert(b.subrange(data, data + n) =~= table);
    reveal_with_fuel(netbios::answer_names, 2);
    reveal_with_fuel(netbios::skip_questions, 2);
    assert(table.skip(1) =~= entries_wire(entries) + statistics);
    lemma_entries_len(entries);
    lemma_table_ends(seq![], entries, statistics);
    lemma_table(seq![], entries, x);
    assert(table[0] == entries.len());
}

/// The length of entries on the wire.
proof fn lemma_entries_len(entries: Seq<Entry>)
    requires
        forall|i: int| 0 <= i < entries.len() ==> (#[trigger] entries[i]).name.len() == 15,
    ensures
        entries_wire(entries).len() == 18 * entries.len(),
    decreases entries.len(),
{
    if entries.len() > 0 {
        let tail = entries.drop_first();
        assert forall|i: int| 0 <= i < tail.len() implies (#[trigger] tail[i]).name.len() == 15 by {
            assert(tail[i] == entries[i + 1]);
        }
        lemma_entries_len(tail);
        assert(entries[0].name.len() == 15);
    }
}

/// What follows the table does not count.
proof fn lemma_table_ends(names: Seq<Seq<char>>, entries: Seq<Entry>, rest: Seq<u8>)
    requires
        forall|i: int| 0 <= i < entries.len() ==> (#[trigger] entries[i]).name.len() == 15,
    ensures
        netbios::table_names(names, entries_wire(entries) + rest, entries.len())
            == netbios::table_names(names, entries_wire(entries), entries.len()),
    decreases entries.len(),
{
    if entries.len() > 0 {
        let tail = entries.drop_first();
        let e = entries[0];
        assert forall|i: int| 0 <= i < tail.len() implies (#[trigger] tail[i]).name.len() == 15 by {
            assert(tail[i] == entries[i + 1]);
        }
        let b = entries_wire(entries);
        assert(e.name.len() == 15);
        assert(b.take(18) =~= entry_wire(e));
        assert((b + rest).take(18) =~= entry_wire(e));
        assert(b.skip(18) =~= entries_wire(tail));
        assert((b + rest).skip(18) =~= entries_wire(tail) + rest);
        let between = match netbios::own_name(b.take(18)) {
            Some(name) => text::insert_sorted_spec(names, name),
            None => names,
        };
        lemma_table_ends(between, tail, rest);
    }
}

/// A node status query asks one question, for every name: a star, then blanks and a
/// closing zero up to sixteen bytes, each half of a byte as a letter from A on.
pub proof fn law_query_asks_for_every_name(id: u16, i: int)
    requires
        0 <= i < 16,
    ensures
        ({
            let q = netbios::netbios_query_spec(id);
            &&& q.len() == 50
            &&& q[0] * 256 + q[1] == id
            &&& q.subrange(2, 13) == seq![0u8, 0, 0, 1, 0, 0, 0, 0, 0, 0, 32]
            &&& (q[13 + 2 * i] - 0x41) * 16 + (q[14 + 2 * i] - 0x41) == (if i == 0 {
                0x2aint
            } else if i < 15 {
                0x20
            } else {
                0
            })
            &&& q.subrange(45, 50) == seq![0u8, 0, 0x21, 0, 0x01]
        }),
{
    let q = netbios::netbios_query_spec(id);
    let star = vstd::utf8::encode_utf8("*"@);
    reveal_strlit("*");
    assert("*"@ =~= seq!['*']);
    lemma_star();
    let code = netbios::encoded_name_spec(star);
    assert(q.subrange(2, 13) =~= seq![0u8, 0, 0, 1, 0, 0, 0, 0, 0, 0, 32]);
    assert(q.subrange(45, 50) =~= seq![0u8, 0, 0x21, 0, 0x01]);
    assert(q[13 + 2 * i] == code[2 * i]);
    assert(q[14 + 2 * i] == code[2 * i + 1]);
    assert((2 * i) % 2 == 0 && (2 * i) / 2 == i);
    assert((2 * i + 1) % 2 == 1 && (2 * i + 1) / 2 == i);
}

/// A star is one byte.
proof fn lemma_star()
    ensures
        vstd::utf8::encode_utf8("*"@) == seq![0x2au8],
{
    reveal_strlit("*");
    assert("*"@ =~= seq!['*']);
    assert(vstd::utf8::is_ascii_chars("*"@));
    vstd::utf8::is_ascii_chars_encode_utf8("*"@);
    assert(vstd::utf8::encode_utf8("*"@) =~= seq![0x2au8]);
}

/// The vendor prefix of a MAC address is its first six hexadecimal digits in upper case;
/// an address with fewer has none.
pub proof fn law_prefix_is_six_digits(mac: Seq<char>, i: int)
    requires
        0 <= i < 6,
    ensures
        ({
            let digits = text::hex_digits_spec(mac);
            let prefix = oui::oui_prefix_spec(mac);
            &&& prefix is Some <==> digits.len() >= 6
            &&& prefix is Some ==> prefix->0.len() == 6
            &&& prefix is Some && '0' <= digits[i] <= '9' ==> prefix->0[i] == digits[i]
            &&& prefix is Some && 'a' <= digits[i] <= 'f' ==> prefix->0[i] as int == digits[i] as int
                - 32
        }),
{
}

/// The header of a column is a name, whatever the case of its letters and the white space
/// around it, and that of no column before it is.
pub open spec fn headed(headers: Seq<Seq<char>>, name: Seq<char>, k: int) -> bool {
    &&& 0 <= k < headers.len()
    &&& text::lower_spec(text::trim_spec(headers[k])) == text::lower_spec(name)
    &&& forall|i: int|
        0 <= i < k ==> text::lower_spec(text::trim_spec(#[trigger] headers[i])) != text::lower_spec(
            name,
        )
}

/// No column has a name.
pub open spec fn unheaded(headers: Seq<Seq<char>>, name: Seq<char>) -> bool {
    forall|i: int|
        0 <= i < headers.len() ==> text::lower_spec(text::trim_spec(#[trigger] headers[i]))
            != text::lower_spec(name)
}

/// The column of a name.
proof fn lemma_column(headers: Seq<Seq<char>>, name: Seq<char>, fallback: int, k: int)
    ensures
        headed(headers, name, k) ==> oui::column_spec(headers, name, fallback) == k,
        unheaded(headers, name) ==> oui::column_spec(headers, name, fallback) == fallback,
{
    lemma_header_index(headers, name);
    let at = oui::header_index(headers, name);
    if headed(headers, name, k) {
        if at < k {
            assert(text::lower_spec(text::trim_spec(headers[at])) != text::lower_spec(name));
        }
    }
}

/// The index of a header.
proof fn lemma_header_index(headers: Seq<Seq<char>>, name: Seq<char>)
    ensures
        0 <= oui::header_index(headers, name) <= headers.len(),
        oui::header_index(headers, name) < headers.len() ==> text::lower_spec(
            text::trim_spec(headers[oui::header_index(headers, name)]),
        ) == text::lower_spec(name),
        forall|i: int|
            0 <= i < oui::header_index(headers, name) ==> text::lower_spec(
                text::trim_spec(#[trigger] headers[i]),
            ) != text::lower_spec(name),
    decreases headers.len(),
{
    if headers.len() > 0 && text::lower_spec(text::trim_spec(headers[0])) != text::lower_spec(
        name,
    ) {
        let tail = headers.drop_first();
        lemma_header_index(tail, name);
        assert forall|i: int| 0 <= i < oui::header_index(headers, name) implies text::lower_spec(
            text::trim_spec(#[trigger] headers[i]),
        ) != text::lower_spec(name) by {
            if i > 0 {
                assert(tail[i - 1] == headers[i]);
            }
        }
    }
}

/// The last row of a vendor table decides for the addresses that share its prefix, and for
/// no others: the assignment is in the column that is headed so, and the vendor in the
/// column of the organization.
pub proof fn law_vendor_rows_name_vendors(
    headers: Seq<Seq<char>>,
    a: int,
    o: int,
    rows: Seq<Seq<Seq<char>>>,
    row: Seq<Seq<char>>,
    mac: Seq<char>,
)
    requires
        headed(headers, "Assignment"@, a),
        headed(headers, "Organization Name"@, o),
        a < row.len(),
        o < row.len(),
    ensures
        ({
            let before = oui::oui_table_spec(headers, rows);
            let after = oui::oui_table_spec(headers, rows.push(row));
            let vendor = text::trim_spec(row[o]);
            let shares = oui::oui_prefix_spec(mac) is Some && oui::oui_prefix_spec(mac)
                == oui::oui_prefix_spec(row[a]);
            &&& shares && vendor.len() > 0 ==> oui::vendor_spec(after, mac) == Some(vendor)
            &&& !shares || vendor.len() == 0 ==> oui::vendor_spec(after, mac) == oui::vendor_spec(
                before,
                mac,
            )
            &&& oui::vendor_spec(oui::oui_table_spec(headers, seq![]), mac) is None
        }),
{
    lemma_column(headers, "Assignment"@, 1, a);
    lemma_column(
        headers,
        "Organization Name"@,
        oui::column_spec(headers, "Organization"@, 2),
        o,
    );
    let before = oui::oui_table_spec(headers, rows);
    assert(rows.push(row).drop_last() =~= rows);
    if oui::oui_prefix_spec(row[a]) is Some && oui::oui_prefix_spec(mac) is Some {
        text_map::law_value_reads_back(
            before,
            oui::oui_prefix_spec(row[a])->0,
            text::trim_spec(row[o]),
            oui::oui_prefix_spec(mac)->0,
        );
    }
}

/// Without headers the second column has the assignment and the third the organization;
/// the organization may also be headed without "Name".
pub proof fn law_vendor_columns_have_fallbacks(headers: Seq<Seq<char>>, k: int)
    ensures
        unheaded(headers, "Assignment"@) ==> oui::column_spec(headers, "Assignment"@, 1) == 1,
        unheaded(headers, "Organization"@) ==> oui::column_spec(headers, "Organization"@, 2) == 2,
        headed(headers, "Organization"@, k) ==> oui::column_spec(headers, "Organization"@, 2) == k,
        unheaded(headers, "Organization Name"@) ==> oui::column_spec(
            headers,
            "Organization Name"@,
            k,
        ) == k,
{
    lemma_column(headers, "Assignment"@, 1, k);
    lemma_column(headers, "Organization"@, 2, k);
    lemma_column(headers, "Organization Name"@, k, k);
}

/// The name of an address is looked up by its octets in reverse.
pub proof fn law_reverse_names_have_octets_in_reverse(a: u8, b: u8, c: u8, d: u8)
    ensures
        ({
            let ip = Ipv4Addr {
                bits: (a * 0x100_0000 + b * 0x1_0000 + c * 0x100 + d) as u32,
            };
            rdns::reverse_name_spec(IpAddr::V4(ip)) == text::decimal_spec(d as nat) + seq!['.']
                + text::decimal_spec(c as nat) + seq!['.'] + text::decimal_spec(b as nat) + seq![
                '.',
            ] + text::decimal_spec(a as nat) + ".in-addr.arpa."@
        }),
{
    let ip = Ipv4Addr { bits: (a * 0x100_0000 + b * 0x1_0000 + c * 0x100 + d) as u32 };
    spelled::lemma_octets(a, b, c, d);
    let p = rdns::octet_labels(ip);
    reveal_strlit(".");
    assert("."@ =~= seq!['.']);
    spelled::lemma_four_joined(p, seq!['.']);
}

/// The name of a host is the first answer that is a name, without the dot behind it.
pub proof fn law_first_name_answers(
    before: Seq<Option<Seq<char>>>,
    name: Seq<char>,
    rest: Seq<Option<Seq<char>>>,
)
    requires
        forall|i: int| 0 <= i < before.len() ==> #[trigger] before[i] is None,
        name.len() > 0,
        name.last() != '.',
    ensures
        rdns::ptr_name_spec(before + seq![Some(name + seq!['.'])] + rest) == Some(name),
        rdns::ptr_name_spec(before + seq![Some(name)] + rest) == Some(name),
        rdns::ptr_name_spec(before) is None,
    decreases before.len(),
{
    let a = before + seq![Some(name + seq!['.'])] + rest;
    let b = before + seq![Some(name)] + rest;
    if before.len() == 0 {
        reveal_with_fuel(text::trim_end_char_spec, 2);
        assert((name + seq!['.']).drop_last() =~= name);
        assert(a[0] == Some(name + seq!['.']) && b[0] == Some(name));
    } else {
        let tail = before.drop_first();
        assert forall|i: int| 0 <= i < tail.len() implies #[trigger] tail[i] is None by {
            assert(tail[i] == before[i + 1]);
        }
        law_first_name_answers(tail, name, rest);
        assert(before[0] is None);
        assert(a.drop_first() =~= tail + seq![Some(name + seq!['.'])] + rest);
        assert(b.drop_first() =~= tail + seq![Some(name)] + rest);
        assert(a[0] == before[0] && b[0] == before[0]);
    }
}

} // verus!
