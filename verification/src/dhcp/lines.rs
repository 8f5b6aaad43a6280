//! What the lines of lease files say.

use crate::addr::IpAddr;
use crate::addr;
use crate::dhcp::{DhcpLeaseView, IscBlock, LeaseFileView, LeaseInstant, LeaseRecord, LAST_SECOND};
use crate::dhcp;
use crate::model::Timestamp;
use crate::text::laws;
use crate::text;
use vstd::prelude::*;

verus! {

/// A value that reads back as it is: without quotes, semicolons, and white space around
/// it, and no placeholder.
pub open spec fn plain(v: Seq<char>) -> bool {
    &&& v.len() > 0
    &&& laws::edged(v)
    &&& v[0] != '"' && v.last() != '"' && v.last() != ';'
    &&& v != seq!['*'] && v != seq!['-']
}

/// A plain value is read as it is.
proof fn lemma_plain(v: Seq<char>)
    requires
        plain(v),
    ensures
        dhcp::optional_value_spec(v) == Some(v),
        dhcp::hostname_value_spec(v) == Some(v),
        text::trim_spec(v) == v,
        text::trim_char_spec(v, '"') == v,
        text::trim_end_char_spec(v, ';') == v,
{
    let none = Seq::<char>::empty();
    reveal_strlit("*");
    reveal_strlit("-");
    assert("*"@ =~= seq!['*']);
    assert("-"@ =~= seq!['-']);
    assert(laws::blank(none));
    laws::law_trimming_takes_the_white_space_around(none, v, none);
    assert(none + v + none =~= v);
    assert(text::trim_char_spec(v, '"') == v);
    assert(text::trim_end_char_spec(v, ';') == v);
}

/// Values are read without their decoration: quotes and a semicolon around a value say
/// nothing, and a star or a hyphen stands for no value.
pub proof fn law_values_are_read_without_decoration(v: Seq<char>)
    requires
        plain(v),
    ensures
        dhcp::optional_value_spec(v) == Some(v),
        dhcp::hostname_value_spec(v) == Some(v),
        dhcp::hostname_value_spec(seq!['"'] + v + seq!['"']) == Some(v),
        dhcp::optional_value_spec(v + seq![';']) == Some(v),
        dhcp::optional_value_spec(seq!['*']) is None,
        dhcp::optional_value_spec(seq!['-']) is None,
        dhcp::optional_value_spec(seq![]) is None,
{
    let none = Seq::<char>::empty();
    lemma_plain(v);
    reveal_strlit("*");
    reveal_strlit("-");
    assert("*"@ =~= seq!['*']);
    assert("-"@ =~= seq!['-']);
    assert(laws::blank(none));
    let quoted = seq!['"'] + v + seq!['"'];
    laws::law_trimming_takes_the_white_space_around(none, quoted, none);
    assert(none + quoted + none =~= quoted);
    laws::law_trimming_a_character('"', 1, v, 1);
    assert(Seq::new(1, |i: int| '"') =~= seq!['"']);
    let ended = v + seq![';'];
    laws::law_trimming_takes_the_white_space_around(none, ended, none);
    assert(none + ended + none =~= ended);
    reveal_with_fuel(text::trim_end_char_spec, 2);
    assert(ended.drop_last() =~= v);
    laws::law_trimming_takes_the_white_space_around(none, seq!['*'], none);
    assert(none + seq!['*'] + none =~= seq!['*']);
    laws::law_trimming_takes_the_white_space_around(none, seq!['-'], none);
    assert(none + seq!['-'] + none =~= seq!['-']);
}

/// Twelve hexadecimal digits are a MAC address, whatever stands between them: its octets
/// are the pairs of digits, with colons between them. Any other number of digits is none.
pub proof fn law_twelve_digits_are_a_mac(value: Seq<char>, i: int)
    requires
        0 <= i < 6,
    ensures
        ({
            let h = text::hex_digits_spec(value);
            let mac = dhcp::lease_mac_spec(value);
            &&& mac is Some <==> h.len() == 12
            &&& mac is Some ==> mac->0.len() == 17 && mac->0[3 * i] == h[2 * i] && mac->0[3 * i + 1]
                == h[2 * i + 1] && (i < 5 ==> mac->0[3 * i + 2] == ':')
        }),
{
    let h = text::hex_digits_spec(value);
    if h.len() == 12 {
        let p = dhcp::digit_pairs(h);
        reveal_strlit(":");
        assert(":"@ =~= seq![':']);
        reveal_with_fuel(text::join_spec, 7);
        let a = p.drop_last();
        let b = a.drop_last();
        let c = b.drop_last();
        let d = c.drop_last();
        let e = d.drop_last();
        assert(e.len() == 1 && e[0] == p[0]);
        assert(d.last() == p[1] && c.last() == p[2] && b.last() == p[3] && a.last() == p[4]);
        let mac = text::join_spec(p, ":"@);
        assert(mac =~= p[0] + seq![':'] + p[1] + seq![':'] + p[2] + seq![':'] + p[3] + seq![':']
            + p[4] + seq![':'] + p[5]);
        assert(p[0] =~= seq![h[0], h[1]]);
        assert(p[1] =~= seq![h[2], h[3]]);
        assert(p[2] =~= seq![h[4], h[5]]);
        assert(p[3] =~= seq![h[6], h[7]]);
        assert(p[4] =~= seq![h[8], h[9]]);
        assert(p[5] =~= seq![h[10], h[11]]);
        assert(mac =~= seq![
            h[0],
            h[1],
            ':',
            h[2],
            h[3],
            ':',
            h[4],
            h[5],
            ':',
            h[6],
            h[7],
            ':',
            h[8],
            h[9],
            ':',
            h[10],
            h[11],
        ]);
    }
}

/// A word: some characters, and no white space among them.
pub open spec fn word(w: Seq<char>) -> bool {
    w.len() > 0 && forall|i: int| 0 <= i < w.len() ==> !text::is_space(#[trigger] w[i])
}

/// The five words of a line.
proof fn lemma_five_words(
    a: Seq<char>,
    b: Seq<char>,
    c: Seq<char>,
    d: Seq<char>,
    e: Seq<char>,
)
    requires
        word(a),
        word(b),
        word(c),
        word(d),
        word(e),
    ensures
        ({
            let line = a + seq![' '] + (b + seq![' '] + (c + seq![' '] + (d + seq![' '] + e)));
            &&& text::words_spec(line) == seq![a, b, c, d, e]
            &&& text::trim_spec(line) == line
            &&& line.len() > 0 && line[0] == a[0]
        }),
{
    let none = Seq::<char>::empty();
    assert(laws::blank(none));
    let l4 = d + seq![' '] + e;
    let l3 = c + seq![' '] + l4;
    let l2 = b + seq![' '] + l3;
    let line = a + seq![' '] + l2;
    laws::law_words_stand_between_white_space(none, e, ' ', none);
    assert(none + e =~= e);
    laws::law_words_stand_between_white_space(none, d, ' ', e);
    assert(none + d + seq![' '] + e =~= l4);
    laws::law_words_stand_between_white_space(none, c, ' ', l4);
    assert(none + c + seq![' '] + l4 =~= l3);
    laws::law_words_stand_between_white_space(none, b, ' ', l3);
    assert(none + b + seq![' '] + l3 =~= l2);
    laws::law_words_stand_between_white_space(none, a, ' ', l2);
    assert(none + a + seq![' '] + l2 =~= line);
    assert(text::words_spec(line) =~= seq![a, b, c, d, e]);
    assert(line[0] == a[0]);
    assert(line.last() == e.last());
    laws::law_trimming_takes_the_white_space_around(none, line, none);
    assert(none + line + none =~= line);
}

/// A line of the line-oriented format gives the end, the MAC address, the address, the
/// name, and the client of a lease, in this order. A lease that has ended is none; an end
/// of zero is none.
pub proof fn law_line_gives_a_lease(
    expiry: i64,
    mac: Seq<char>,
    ip: IpAddr,
    address: Seq<char>,
    hostname: Seq<char>,
    client: Seq<char>,
    now: Timestamp,
)
    requires
        word(mac),
        word(address),
        addr::parse_ip_spec(address) == Some(ip),
        word(hostname),
        plain(hostname),
        word(client),
        plain(client),
        expiry <= LAST_SECOND,
        !(mac.contains('{') || address.contains('{') || hostname.contains('{')
            || client.contains('{')),
    ensures
        ({
            let line = text::signed_decimal_spec(expiry as int) + seq![' '] + (mac + seq![' '] + (
            address + seq![' '] + (hostname + seq![' '] + client)));
            let read = dhcp::dnsmasq_line_spec(line, now);
            &&& read is Some <==> expiry == 0 || expiry * 1_000_000_000 > now
            &&& read is Some ==> read->0.ip == ip
            &&& read is Some ==> read->0.mac == dhcp::lease_mac_spec(mac)
            &&& read is Some ==> read->0.hostname == Some(hostname)
            &&& read is Some ==> read->0.client_id == Some(client)
            &&& read is Some ==> read->0.vendor_class is None
            &&& read is Some && expiry > 0 ==> read->0.expires_at == Some(
                LeaseInstant { seconds: expiry, nanos: 0 },
            )
            &&& read is Some && expiry == 0 ==> read->0.expires_at is None
        }),
{
    let a = text::signed_decimal_spec(expiry as int);
    laws::law_signed_numbers_read_back(expiry as int);
    assert(word(a)) by {
        let n = (if expiry < 0 {
            -expiry
        } else {
            expiry as int
        }) as nat;
        text::law_decimal_reads_back(n);
        assert forall|i: int| 0 <= i < a.len() implies !text::is_space(#[trigger] a[i]) by {
            if expiry < 0 {
                if i > 0 {
                    assert(a[i] == text::decimal_spec(n)[i - 1]);
                    assert(text::is_digit(text::decimal_spec(n)[i - 1]));
                }
            } else {
                assert(text::is_digit(text::decimal_spec(n)[i]));
            }
        }
    }
    lemma_five_words(a, mac, address, hostname, client);
    let line = a + seq![' '] + (mac + seq![' '] + (address + seq![' '] + (hostname + seq![' ']
        + client)));
    reveal_strlit("#");
    reveal_strlit("{");
    assert(!text::starts_with_spec(line, "#"@)) by {
        if text::starts_with_spec(line, "#"@) {
            assert(line.take(1)[0] == '#');
            let n = (if expiry < 0 {
                -expiry
            } else {
                expiry as int
            }) as nat;
            text::law_decimal_reads_back(n);
            assert(expiry >= 0 ==> text::is_digit(text::decimal_spec(n)[0]));
        }
    }
    assert(!text::contains_spec(line, "{"@)) by {
        if text::contains_spec(line, "{"@) {
            let k = choose|k: int|
                0 <= k && k + "{"@.len() <= line.len() && #[trigger] line.subrange(
                    k,
                    k + "{"@.len(),
                ) == "{"@;
            assert(line.subrange(k, k + 1)[0] == '{');
            assert(line[k] == '{');
            lemma_brace(expiry as int, mac, address, hostname, client, k);
        }
    }
    lemma_plain(hostname);
    lemma_plain(client);
}

/// The words of a line hold no brace.
proof fn lemma_brace(
    expiry: int,
    mac: Seq<char>,
    address: Seq<char>,
    hostname: Seq<char>,
    client: Seq<char>,
    k: int,
)
    requires
        !(mac.contains('{') || address.contains('{') || hostname.contains('{')
            || client.contains('{')),
    ensures
        ({
            let line = text::signed_decimal_spec(expiry) + seq![' '] + (mac + seq![' '] + (address
                + seq![' '] + (hostname + seq![' '] + client)));
            0 <= k < line.len() ==> line[k] != '{'
        }),
{
    let a = text::signed_decimal_spec(expiry);
    let l4 = hostname + seq![' '] + client;
    let l3 = address + seq![' '] + l4;
    let l2 = mac + seq![' '] + l3;
    let line = a + seq![' '] + l2;
    let n = (if expiry < 0 {
        -expiry
    } else {
        expiry
    }) as nat;
    text::law_decimal_reads_back(n);
    if 0 <= k < line.len() && line[k] == '{' {
        let k2 = k - a.len() - 1;
        let k3 = k2 - mac.len() - 1;
        let k4 = k3 - address.len() - 1;
        let k5 = k4 - hostname.len() - 1;
        if k < a.len() {
            assert(a[k] == '{');
            if expiry < 0 {
                if k > 0 {
                    assert(text::is_digit(text::decimal_spec(n)[k - 1]));
                }
            } else {
                assert(text::is_digit(text::decimal_spec(n)[k]));
            }
        } else if k2 >= 0 {
            assert(l2[k2] == '{');
            if k2 < mac.len() {
                assert(mac[k2] == '{');
            } else if k3 >= 0 {
                assert(l3[k3] == '{');
                if k3 < address.len() {
                    assert(address[k3] == '{');
                } else if k4 >= 0 {
                    assert(l4[k4] == '{');
                    if k4 < hostname.len() {
                        assert(hostname[k4] == '{');
                    } else if k5 >= 0 {
                        assert(client[k5] == '{');
                    }
                }
            }
        }
    }
}

/// A line of a block: a keyword, a value, and a semicolon behind it.
pub open spec fn block_line(indent: Seq<char>, keyword: Seq<char>, v: Seq<char>) -> Seq<char> {
    indent + keyword + v + seq![';']
}

/// What is left of a line of a block.
proof fn lemma_block_line(indent: Seq<char>, keyword: Seq<char>, v: Seq<char>)
    requires
        laws::blank(indent),
        keyword.len() > 0,
        !text::is_space(keyword[0]),
        v.len() > 0,
        laws::edged(v),
        v.last() != ';',
    ensures
        text::trim_spec(text::trim_end_char_spec(block_line(indent, keyword, v), ';')) == keyword
            + v,
{
    let none = Seq::<char>::empty();
    let s = keyword + v;
    let whole = indent + s;
    assert(block_line(indent, keyword, v) =~= whole + seq![';']);
    assert(whole.last() == v.last());
    reveal_with_fuel(text::trim_end_char_spec, 2);
    assert((whole + seq![';']).drop_last() =~= whole);
    assert(laws::blank(none));
    assert(s[0] == keyword[0] && s.last() == v.last());
    laws::law_trimming_takes_the_white_space_around(indent, s, none);
    assert(indent + s + none =~= whole);
}

/// A line that starts otherwise has no such prefix.
proof fn lemma_other_prefix(s: Seq<char>, p: Seq<char>, i: int)
    requires
        0 <= i < p.len(),
        i < s.len() ==> s[i] != p[i],
    ensures
        text::strip_prefix_spec(s, p) is None,
{
    if text::starts_with_spec(s, p) {
        assert(s.take(p.len() as int)[i] == s[i]);
    }
}

/// A text without a character contains no text that has it.
proof fn lemma_no_such_text(s: Seq<char>, p: Seq<char>, c: char)
    requires
        !s.contains(c),
        p.contains(c),
    ensures
        dhcp::after_text(s, p) is None,
{
    text::lemma_text_index(s, p);
    if text::contains_spec(s, p) {
        let k = choose|k: int|
            0 <= k && k + p.len() <= s.len() && #[trigger] s.subrange(k, k + p.len()) == p;
        let m = choose|m: int| 0 <= m < p.len() && p[m] == c;
        assert(s.subrange(k, k + p.len())[m] == s[k + m]);
        assert(s[k + m] == c);
    }
}

/// Every line of a block says what its keyword names, and nothing else: the MAC address,
/// the name, the client, the vendor class, the state, or the end of a lease.
pub proof fn law_block_lines_say_what_they_name(b: IscBlock, indent: Seq<char>, v: Seq<char>)
    requires
        laws::blank(indent),
        plain(v),
        !v.contains('='),
    ensures
        dhcp::with_isc_line(b, block_line(indent, "hardware ethernet "@, v)) == (
            DhcpLeaseView { mac: dhcp::lease_mac_spec(v), ..b.0 },
            b.1,
        ),
        dhcp::with_isc_line(b, block_line(indent, "client-hostname "@, v)) == (
            DhcpLeaseView { hostname: Some(v), ..b.0 },
            b.1,
        ),
        dhcp::with_isc_line(b, block_line(indent, "option host-name "@, v)) == (
            DhcpLeaseView { hostname: Some(v), ..b.0 },
            b.1,
        ),
        dhcp::with_isc_line(b, block_line(indent, "uid "@, v)) == (
            DhcpLeaseView { client_id: Some(v), ..b.0 },
            b.1,
        ),
        dhcp::with_isc_line(b, block_line(indent, "option vendor-class-identifier "@, v)) == (
            DhcpLeaseView { vendor_class: Some(v), ..b.0 },
            b.1,
        ),
        dhcp::with_isc_line(b, block_line(indent, "binding state "@, v)) == (
            b.0,
            Some(text::lower_spec(v)),
        ),
        dhcp::with_isc_line(b, block_line(indent, "ends "@, v)) == (
            DhcpLeaseView { expires_at: dhcp::lease_time_spec(v), ..b.0 },
            b.1,
        ),
        dhcp::with_isc_line(b, block_line(indent, "expire "@, v)) == (
            DhcpLeaseView { expires_at: dhcp::lease_time_spec(v), ..b.0 },
            b.1,
        ),
{
    lemma_plain(v);
    lemma_block_mac(b, indent, v);
    lemma_block_names(b, indent, v);
    lemma_block_class(b, indent, v);
    lemma_block_state(b, indent, v);
    lemma_block_ends(b, indent, v);
    lemma_block_expires(b, indent, v);
}

/// The hardware line.
proof fn lemma_block_mac(b: IscBlock, indent: Seq<char>, v: Seq<char>)
    requires
        laws::blank(indent),
        plain(v),
    ensures
        dhcp::with_isc_line(b, block_line(indent, "hardware ethernet "@, v)) == (
            DhcpLeaseView { mac: dhcp::lease_mac_spec(v), ..b.0 },
            b.1,
        ),
{
    let p = "hardware ethernet "@;
    reveal_strlit("hardware ethernet ");
    lemma_block_line(indent, p, v);
    laws::law_texts_contain_their_parts(seq![], p, v);
}

/// The lines of names and clients.
proof fn lemma_block_names(b: IscBlock, indent: Seq<char>, v: Seq<char>)
    requires
        laws::blank(indent),
        plain(v),
    ensures
        dhcp::with_isc_line(b, block_line(indent, "client-hostname "@, v)) == (
            DhcpLeaseView { hostname: Some(v), ..b.0 },
            b.1,
        ),
        dhcp::with_isc_line(b, block_line(indent, "option host-name "@, v)) == (
            DhcpLeaseView { hostname: Some(v), ..b.0 },
            b.1,
        ),
        dhcp::with_isc_line(b, block_line(indent, "uid "@, v)) == (
            DhcpLeaseView { client_id: Some(v), ..b.0 },
            b.1,
        ),
{
    lemma_plain(v);
    let h = "hardware ethernet "@;
    let c = "client-hostname "@;
    let o = "option host-name "@;
    let u = "uid "@;
    reveal_strlit("hardware ethernet ");
    reveal_strlit("client-hostname ");
    reveal_strlit("option host-name ");
    reveal_strlit("uid ");
    lemma_block_line(indent, c, v);
    laws::law_texts_contain_their_parts(seq![], c, v);
    lemma_other_prefix(c + v, h, 0);
    lemma_block_line(indent, o, v);
    laws::law_texts_contain_their_parts(seq![], o, v);
    lemma_other_prefix(o + v, h, 0);
    lemma_other_prefix(o + v, c, 0);
    lemma_block_line(indent, u, v);
    laws::law_texts_contain_their_parts(seq![], u, v);
    lemma_other_prefix(u + v, h, 0);
    lemma_other_prefix(u + v, c, 0);
    lemma_other_prefix(u + v, o, 0);
}

/// A line holds no equals sign.
proof fn lemma_no_equals(p: Seq<char>, v: Seq<char>)
    requires
        !p.contains('='),
        !v.contains('='),
    ensures
        dhcp::after_text(p + v, "vendor-class-identifier ="@) is None,
{
    let e = "vendor-class-identifier ="@;
    reveal_strlit("vendor-class-identifier =");
    assert(e[24] == '=');
    let s = p + v;
    if s.contains('=') {
        let k = choose|k: int| 0 <= k < s.len() && s[k] == '=';
        if k < p.len() {
            assert(p[k] == '=');
        } else {
            assert(v[k - p.len()] == '=');
        }
    }
    lemma_no_such_text(s, e, '=');
}

/// How the keywords of a block start.
proof fn lemma_keywords()
    ensures
        "hardware ethernet "@.len() > 7 && "hardware ethernet "@[0] == 'h',
        "client-hostname "@.len() > 7 && "client-hostname "@[0] == 'c',
        "option host-name "@.len() > 7 && "option host-name "@[0] == 'o' && "option host-name "@[7]
            == 'h',
        "uid "@.len() > 0 && "uid "@[0] == 'u',
        "option vendor-class-identifier "@.len() > 7 && "option vendor-class-identifier "@[0] == 'o'
            && "option vendor-class-identifier "@[7] == 'v',
        "binding state "@.len() > 0 && "binding state "@[0] == 'b',
        "ends "@.len() > 1 && "ends "@[0] == 'e' && "ends "@[1] == 'n',
        "expire "@.len() > 1 && "expire "@[0] == 'e' && "expire "@[1] == 'x',
        !"option vendor-class-identifier "@.contains('='),
        !"binding state "@.contains('='),
        !"ends "@.contains('='),
        !"expire "@.contains('='),
{
    reveal_strlit("hardware ethernet ");
    reveal_strlit("client-hostname ");
    reveal_strlit("option host-name ");
    reveal_strlit("uid ");
    reveal_strlit("option vendor-class-identifier ");
    reveal_strlit("binding state ");
    reveal_strlit("ends ");
    reveal_strlit("expire ");
}

/// A line that starts with another letter is none of the first lines.
proof fn lemma_none_of_the_first(s: Seq<char>)
    requires
        s.len() > 0,
        s[0] == 'b' || s[0] == 'e' || s[0] == 's' || (s[0] == 'o' && s.len() > 7 && s[7] == 'v'),
    ensures
        text::strip_prefix_spec(s, "hardware ethernet "@) is None,
        text::strip_prefix_spec(s, "client-hostname "@) is None,
        text::strip_prefix_spec(s, "option host-name "@) is None,
        text::strip_prefix_spec(s, "uid "@) is None,
        s[0] != 'o' ==> text::strip_prefix_spec(s, "option vendor-class-identifier "@) is None,
        s[0] != 'b' ==> text::strip_prefix_spec(s, "binding state "@) is None,
{
    lemma_keywords();
    lemma_other_prefix(s, "hardware ethernet "@, 0);
    lemma_other_prefix(s, "client-hostname "@, 0);
    lemma_other_prefix(
        s,
        "option host-name "@,
        if s[0] == 'o' {
            7
        } else {
            0
        },
    );
    lemma_other_prefix(s, "uid "@, 0);
    if s[0] != 'o' {
        lemma_other_prefix(s, "option vendor-class-identifier "@, 0);
    }
    if s[0] != 'b' {
        lemma_other_prefix(s, "binding state "@, 0);
    }
}

/// The vendor class line.
proof fn lemma_block_class(b: IscBlock, indent: Seq<char>, v: Seq<char>)
    requires
        laws::blank(indent),
        plain(v),
        !v.contains('='),
    ensures
        dhcp::with_isc_line(b, block_line(indent, "option vendor-class-identifier "@, v)) == (
            DhcpLeaseView { vendor_class: Some(v), ..b.0 },
            b.1,
        ),
{
    lemma_plain(v);
    lemma_keywords();
    let p = "option vendor-class-identifier "@;
    let s = p + v;
    assert(p.len() >= 31) by {
        reveal_strlit("option vendor-class-identifier ");
    }
    lemma_block_line(indent, p, v);
    laws::law_texts_contain_their_parts(seq![], p, v);
    assert(s[0] == p[0]);
    assert(s[7] == p[7]);
    lemma_none_of_the_first(s);
    lemma_no_equals(p, v);
}

/// The state line.
proof fn lemma_block_state(b: IscBlock, indent: Seq<char>, v: Seq<char>)
    requires
        laws::blank(indent),
        plain(v),
        !v.contains('='),
    ensures
        dhcp::with_isc_line(b, block_line(indent, "binding state "@, v)) == (
            b.0,
            Some(text::lower_spec(v)),
        ),
{
    lemma_plain(v);
    lemma_keywords();
    let p = "binding state "@;
    let s = p + v;
    assert(p.len() >= 14) by {
        reveal_strlit("binding state ");
    }
    lemma_block_line(indent, p, v);
    laws::law_texts_contain_their_parts(seq![], p, v);
    assert(s[0] == p[0]);
    lemma_none_of_the_first(s);
    lemma_no_equals(p, v);
}

/// The line of the end.
proof fn lemma_block_ends(b: IscBlock, indent: Seq<char>, v: Seq<char>)
    requires
        laws::blank(indent),
        plain(v),
        !v.contains('='),
    ensures
        dhcp::with_isc_line(b, block_line(indent, "ends "@, v)) == (
            DhcpLeaseView { expires_at: dhcp::lease_time_spec(v), ..b.0 },
            b.1,
        ),
{
    lemma_plain(v);
    lemma_keywords();
    let p = "ends "@;
    let s = p + v;
    assert(p.len() >= 5) by {
        reveal_strlit("ends ");
    }
    lemma_block_line(indent, p, v);
    laws::law_texts_contain_their_parts(seq![], p, v);
    assert(s[0] == p[0]);
    lemma_none_of_the_first(s);
    lemma_no_equals(p, v);
}

/// The other line of the end.
proof fn lemma_block_expires(b: IscBlock, indent: Seq<char>, v: Seq<char>)
    requires
        laws::blank(indent),
        plain(v),
        !v.contains('='),
    ensures
        dhcp::with_isc_line(b, block_line(indent, "expire "@, v)) == (
            DhcpLeaseView { expires_at: dhcp::lease_time_spec(v), ..b.0 },
            b.1,
        ),
{
    lemma_plain(v);
    lemma_keywords();
    let p = "expire "@;
    let s = p + v;
    assert(p.len() >= 7) by {
        reveal_strlit("expire ");
    }
    lemma_block_line(indent, p, v);
    laws::law_texts_contain_their_parts(seq![], p, v);
    assert(s[0] == p[0]);
    assert(s[1] == p[1]);
    lemma_other_prefix(s, "ends "@, 1);
    lemma_none_of_the_first(s);
    lemma_no_equals(p, v);
}

/// The lines of a block between its header and its end.
pub open spec fn inner_lines(body: Seq<Seq<char>>) -> bool {
    forall|i: int|
        0 <= i < body.len() ==> laws::edged(#[trigger] body[i]) && body[i] != seq!['}']
            && !text::starts_with_spec(body[i], "lease "@)
}

/// A block gives its lease: the header names the address, the lines say the rest, and a
/// closing brace ends it. It counts while it is active and has not ended.
pub proof fn law_block_gives_its_lease(
    ip: IpAddr,
    address: Seq<char>,
    body: Seq<Seq<char>>,
    rest: Seq<Seq<char>>,
    now: Timestamp,
)
    requires
        address.len() > 0,
        laws::edged(address),
        !address.contains('{'),
        addr::parse_ip_spec(address) == Some(ip),
        inner_lines(body),
    ensures
        ({
            let found = dhcp::with_isc_lines((dhcp::bare_lease(ip), None), body);
            let counts = (found.1 is None || found.1 == Some("active"@)) && (found.0.expires_at is None
                || found.0.expires_at->0.after(now));
            dhcp::isc_scan(
                seq!["lease "@ + address + seq![' ', '{']] + body + seq![seq!['}']] + rest,
                None,
                seq![],
                now,
            ) == (if counts {
                seq![found.0]
            } else {
                seq![]
            }) + dhcp::isc_scan(rest, None, seq![], now)
        }),
{
    let none = Seq::<char>::empty();
    let head = "lease "@ + address + seq![' ', '{'];
    let all = seq![head] + body + seq![seq!['}']] + rest;
    reveal_strlit("lease ");
    reveal_strlit("}");
    assert("}"@ =~= seq!['}']);
    assert(laws::blank(none));
    laws::law_trimming_takes_the_white_space_around(none, head, none);
    assert(none + head + none =~= head);
    let tail = address + seq![' ', '{'];
    assert(head =~= "lease "@ + tail);
    laws::law_texts_contain_their_parts(none, "lease "@, tail);
    let named = address + seq![' '];
    assert(!named.contains('{')) by {
        if named.contains('{') {
            let k = choose|k: int| 0 <= k < named.len() && named[k] == '{';
            assert(address[k] == '{');
        }
    }
    laws::lemma_char_behind(named, '{', none);
    assert(named + seq!['{'] + none =~= tail);
    assert(laws::blank(seq![' ']));
    laws::law_trimming_takes_the_white_space_around(none, address, seq![' ']);
    assert(none + address + seq![' '] =~= named);
    assert(dhcp::isc_header(head) == Some(Some(ip)));
    assert(all[0] == head);
    assert(all.drop_first() =~= body + seq![seq!['}']] + rest);
    lemma_block_body(ip, seq![], body, rest, now);
    assert(Seq::<Seq<char>>::empty() + body =~= body);
    let found = dhcp::with_isc_lines((dhcp::bare_lease(ip), None), body);
    assert(dhcp::opt_seq(dhcp::isc_body_spec(ip, body, now)) =~= (if dhcp::current_spec(
        found.1,
        found.0.expires_at,
        now,
    ) {
        seq![found.0]
    } else {
        seq![]
    }));
}

/// The lines of a block up to its end.
proof fn lemma_block_body(
    ip: IpAddr,
    before: Seq<Seq<char>>,
    body: Seq<Seq<char>>,
    rest: Seq<Seq<char>>,
    now: Timestamp,
)
    requires
        inner_lines(body),
    ensures
        dhcp::isc_scan(body + seq![seq!['}']] + rest, Some(ip), before, now) == dhcp::opt_seq(
            dhcp::isc_body_spec(ip, before + body, now),
        ) + dhcp::isc_scan(rest, None, seq![], now),
    decreases body.len(),
{
    let none = Seq::<char>::empty();
    let all = body + seq![seq!['}']] + rest;
    reveal_strlit("}");
    reveal_strlit("lease ");
    assert("}"@ =~= seq!['}']);
    assert(laws::blank(none));
    if body.len() == 0 {
        assert(all[0] == seq!['}']);
        assert(all.drop_first() =~= rest);
        laws::law_trimming_takes_the_white_space_around(none, seq!['}'], none);
        assert(none + seq!['}'] + none =~= seq!['}']);
        lemma_other_prefix(seq!['}'], "lease "@, 0);
        assert(before + body =~= before);
    } else {
        let line = body[0];
        let tail = body.drop_first();
        laws::law_trimming_takes_the_white_space_around(none, line, none);
        assert(none + line + none =~= line);
        assert(all[0] == line);
        assert(all.drop_first() =~= tail + seq![seq!['}']] + rest);
        assert(text::strip_prefix_spec(line, "lease "@) is None);
        assert forall|i: int| 0 <= i < tail.len() implies laws::edged(#[trigger] tail[i]) && tail[i]
            != seq!['}'] && !text::starts_with_spec(tail[i], "lease "@) by {
            assert(tail[i] == body[i + 1]);
        }
        lemma_block_body(ip, before.push(line), tail, rest, now);
        assert(before.push(line) + tail =~= before + body);
    }
}

/// A line of a key/value file says what its key names, and nothing else.
pub proof fn law_record_lines_say_what_they_name(
    r: LeaseRecord,
    ip: IpAddr,
    address: Seq<char>,
    v: Seq<char>,
)
    requires
        plain(v),
        plain(address),
        addr::parse_ip_spec(address) == Some(ip),
    ensures
        dhcp::with_record_line(r, "ADDRESS"@ + seq!['='] + address) == (LeaseRecord {
            ip: Some(ip),
            ..r
        }),
        dhcp::with_record_line(r, "HOSTNAME"@ + seq!['='] + v) == (LeaseRecord {
            hostname: Some(v),
            ..r
        }),
        dhcp::with_record_line(r, "CLIENTID"@ + seq!['='] + v) == (LeaseRecord {
            client_id: Some(v),
            ..r
        }),
        dhcp::with_record_line(r, "VENDOR_CLASS_IDENTIFIER"@ + seq!['='] + v) == (LeaseRecord {
            vendor_class: Some(v),
            ..r
        }),
{
    lemma_record_names();
    lemma_plain(v);
    lemma_plain(address);
    lemma_record_key("ADDRESS"@, address);
    lemma_record_key("HOSTNAME"@, v);
    lemma_record_key("CLIENTID"@, v);
    lemma_record_key("VENDOR_CLASS_IDENTIFIER"@, v);
}

/// A key: some characters, among them neither white space nor an equals sign.
spec fn record_key(key: Seq<char>) -> bool {
    key.len() > 0 && forall|i: int|
        0 <= i < key.len() ==> !text::is_space(#[trigger] key[i]) && key[i] != '='
}

/// The keys of a record differ.
proof fn lemma_record_names()
    ensures
        record_key("ADDRESS"@),
        record_key("HOSTNAME"@),
        record_key("CLIENTID"@),
        record_key("VENDOR_CLASS_IDENTIFIER"@),
        "ADDRESS"@.len() == 7,
        "IP_ADDRESS"@.len() == 10,
        "ip_address"@.len() == 10,
        "HOSTNAME"@.len() == 8 && "HOSTNAME"@[0] == 'H',
        "host_name"@.len() == 9,
        "name"@.len() == 4,
        "CLIENTID"@.len() == 8 && "CLIENTID"@[0] == 'C',
        "CLIENT_ID"@.len() == 9,
        "dhcp_client_identifier"@.len() == 22,
        "VENDOR_CLASS_IDENTIFIER"@.len() == 23,
{
    reveal_strlit("ADDRESS");
    reveal_strlit("IP_ADDRESS");
    reveal_strlit("ip_address");
    reveal_strlit("HOSTNAME");
    reveal_strlit("host_name");
    reveal_strlit("name");
    reveal_strlit("CLIENTID");
    reveal_strlit("CLIENT_ID");
    reveal_strlit("dhcp_client_identifier");
    reveal_strlit("VENDOR_CLASS_IDENTIFIER");
}

/// The key and the value of a line.
proof fn lemma_record_key(key: Seq<char>, v: Seq<char>)
    requires
        record_key(key),
        plain(v),
    ensures
        ({
            let line = key + seq!['='] + v;
            let k = text::char_index(line, '=');
            &&& 0 <= k < line.len()
            &&& text::trim_spec(line.take(k)) == key
            &&& text::trim_char_spec(text::trim_spec(line.skip(k + 1)), '"') == v
        }),
{
    let none = Seq::<char>::empty();
    if key.contains('=') {
        let k = choose|k: int| 0 <= k < key.len() && key[k] == '=';
        assert(key[k] != '=');
    }
    laws::lemma_char_behind(key, '=', v);
    assert(laws::blank(none));
    assert(!text::is_space(key[0]) && !text::is_space(key[key.len() - 1]));
    laws::law_trimming_takes_the_white_space_around(none, key, none);
    assert(none + key + none =~= key);
    lemma_plain(v);
}

/// Every lease of a file names the file, and is otherwise what one of the formats reads in
/// it.
pub proof fn law_leases_name_their_file(file: LeaseFileView, now: Timestamp, i: int)
    requires
        0 <= i < dhcp::file_leases_spec(file, now).len(),
    ensures
        ({
            let lease = dhcp::file_leases_spec(file, now)[i];
            &&& lease.source == Some(file.path)
            &&& exists|read: DhcpLeaseView|
                #![trigger dhcp::isc_leases_spec(file.text, now).contains(read)]
                (dhcp::isc_leases_spec(file.text, now).contains(read)
                    || dhcp::dnsmasq_leases_spec(file.text, now).contains(read)
                    || dhcp::systemd_lease_spec(file.text).contains(read)) && read.ip == lease.ip
                    && read.mac == lease.mac && read.hostname == lease.hostname && read.client_id
                    == lease.client_id && read.vendor_class == lease.vendor_class && read.expires_at
                    == lease.expires_at
        }),
{
    let a = dhcp::isc_leases_spec(file.text, now);
    let b = dhcp::dnsmasq_leases_spec(file.text, now);
    let c = dhcp::systemd_lease_spec(file.text);
    let all = a + b + c;
    let read = all[i];
    if i < a.len() {
        assert(a[i] == read);
    } else if i < a.len() + b.len() {
        assert(b[i - a.len()] == read);
    } else {
        assert(c[i - a.len() - b.len()] == read);
    }
    let found = a.contains(read);
    assert(found || b.contains(read) || c.contains(read));
}

/// The end of a lease is a date and a time, behind the day of the week where there is one;
/// a lease that never ends has none.
pub proof fn law_lease_end_is_a_date_and_a_time(
    day: char,
    date: Seq<char>,
    time: Seq<char>,
)
    requires
        '0' <= day <= '9',
        word(date),
        !dhcp::all_digits(date),
        word(time),
        time.last() != ';',
    ensures
        dhcp::lease_time_text(seq![day, ' '] + date + seq![' '] + time) == Some(
            date + seq![' '] + time,
        ),
        dhcp::lease_time_text(date + seq![' '] + time) == Some(date + seq![' '] + time),
        dhcp::lease_time_text("never"@) is None,
{
    let none = Seq::<char>::empty();
    reveal_strlit(" ");
    reveal_strlit("never");
    assert(" "@ =~= seq![' ']);
    assert(laws::blank(none));
    let a = date + seq![' '] + time;
    let b = seq![day, ' '] + a;
    assert(b =~= seq![day, ' '] + date + seq![' '] + time);
    lemma_lease_time(a);
    lemma_lease_time(b);
    laws::law_words_stand_between_white_space(none, time, ' ', none);
    assert(none + time =~= time);
    laws::law_words_stand_between_white_space(none, date, ' ', time);
    assert(none + date + seq![' '] + time =~= a);
    assert(text::words_spec(a) =~= seq![date, time]);
    assert(word(seq![day]));
    laws::law_words_stand_between_white_space(none, seq![day], ' ', a);
    assert(none + seq![day] + seq![' '] + a =~= b);
    assert(text::words_spec(b) =~= seq![seq![day], date, time]);
    assert(dhcp::all_digits(seq![day]));
    lemma_not_never(a, date.len() as int);
    lemma_not_never(b, 1);
    assert(text::lower_spec("never"@) =~= "never"@);
    assert(text::trim_end_char_spec("never"@, ';') == "never"@);
    laws::law_trimming_takes_the_white_space_around(none, "never"@, none);
    assert(none + "never"@ + none =~= "never"@);
}

/// A line with a blank in it does not say "never".
proof fn lemma_not_never(s: Seq<char>, i: int)
    requires
        0 <= i < s.len(),
        s[i] == ' ',
    ensures
        text::lower_spec(s) != "never"@,
{
    reveal_strlit("never");
    assert(text::lower_spec(s)[i] == ' ');
    if text::lower_spec(s) == "never"@ {
        assert(text::lower_spec(s).len() == s.len());
        assert("never"@.len() == 5);
        assert(i == 0 || i == 1 || i == 2 || i == 3 || i == 4);
        assert("never"@[i] == ' ');
    }
}

/// A line without decoration is kept.
proof fn lemma_lease_time(s: Seq<char>)
    requires
        s.len() > 0,
        laws::edged(s),
        s.last() != ';',
    ensures
        text::trim_spec(text::trim_end_char_spec(text::trim_spec(s), ';')) == s,
{
    let none = Seq::<char>::empty();
    assert(laws::blank(none));
    laws::law_trimming_takes_the_white_space_around(none, s, none);
    assert(none + s + none =~= s);
}

} // verus!
