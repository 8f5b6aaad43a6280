//! The letters that stand for sources.

use crate::output::sources::CharOrder;
use crate::output::sources;
use crate::sort;
use vstd::prelude::*;

verus! {

/// A source, its letter, and what the legend calls it.
pub open spec fn lettered(source: Seq<char>, letter: char, label: Seq<char>) -> bool {
    ||| source == "arp"@ && letter == 'A' && label == "ARP"@
    ||| source == "oui"@ && letter == 'O' && label == "OUI"@
    ||| source == "mdns"@ && letter == 'M' && label == "mDNS"@
    ||| source == "netbios"@ && letter == 'N' && label == "NetBIOS"@
    ||| source == "upnp"@ && letter == 'U' && label == "UPnP"@
    ||| source == "deep"@ && letter == 'D' && label == "Deep"@
    ||| source == "rdns"@ && letter == 'R' && label == "rDNS"@
    ||| source == "local"@ && letter == 'L' && label == "Local"@
    ||| source == "dhcp"@ && letter == 'C' && label == "DHCP"@
    ||| source == "lldp"@ && letter == 'Y' && label == "LLDP"@
    ||| source == "cdp"@ && letter == 'V' && label == "CDP"@
    ||| source == "smb"@ && letter == 'B' && label == "SMB"@
    ||| source == "snmp"@ && letter == 'S' && label == "SNMP"@
    ||| source == "http"@ && letter == 'H' && label == "HTTP"@
    ||| source == "tls"@ && letter == 'T' && label == "TLS"@
    ||| source == "icmp"@ && letter == 'I' && label == "ICMP"@
    ||| source == "tcp"@ && letter == 'P' && label == "TCP"@
    ||| source == "cache"@ && letter == 'K' && label == "Cache"@
}

/// Every source has its own letter, and the legend explains it.
pub proof fn law_legend_explains_the_letters(source: Seq<char>, letter: char, label: Seq<char>)
    requires
        lettered(source, letter, label),
    ensures
        sources::code_spec(source) == letter,
        exists|i: int|
            0 <= i < sources::legend_spec().len() && (#[trigger] sources::legend_spec()[i]).0
                == seq![letter] && sources::legend_spec()[i].1 == label,
{
    lemma_sources();
    lemma_letters();
    let legend = sources::legend_spec();
    assert(legend.len() == 18);
    assert(legend[0].1 == "ARP"@ && legend[1].1 == "OUI"@ && legend[2].1 == "mDNS"@);
    assert(legend[3].1 == "NetBIOS"@ && legend[4].1 == "UPnP"@ && legend[5].1 == "Deep"@);
    assert(legend[6].1 == "rDNS"@ && legend[7].1 == "Local"@ && legend[8].1 == "DHCP"@);
    assert(legend[9].1 == "LLDP"@ && legend[10].1 == "CDP"@ && legend[11].1 == "SMB"@);
    assert(legend[12].1 == "SNMP"@ && legend[13].1 == "HTTP"@ && legend[14].1 == "TLS"@);
    assert(legend[15].1 == "ICMP"@ && legend[16].1 == "TCP"@ && legend[17].1 == "Cache"@);
}

/// The names of sources differ.
proof fn lemma_sources()
    ensures
        "arp"@.len() == 3 && "arp"@[0] == 'a',
        "oui"@.len() == 3 && "oui"@[0] == 'o',
        "mdns"@.len() == 4 && "mdns"@[0] == 'm',
        "netbios"@.len() == 7,
        "upnp"@.len() == 4 && "upnp"@[0] == 'u',
        "deep"@.len() == 4 && "deep"@[0] == 'd' && "deep"@[1] == 'e',
        "local"@.len() == 5 && "local"@[0] == 'l',
        "rdns"@.len() == 4 && "rdns"@[0] == 'r',
        "dhcp"@.len() == 4 && "dhcp"@[0] == 'd' && "dhcp"@[1] == 'h',
        "lldp"@.len() == 4 && "lldp"@[0] == 'l',
        "cdp"@.len() == 3 && "cdp"@[0] == 'c',
        "http"@.len() == 4 && "http"@[0] == 'h',
        "tls"@.len() == 3 && "tls"@[0] == 't' && "tls"@[1] == 'l',
        "smb"@.len() == 3 && "smb"@[0] == 's',
        "snmp"@.len() == 4 && "snmp"@[0] == 's',
        "icmp"@.len() == 4 && "icmp"@[0] == 'i',
        "tcp"@.len() == 3 && "tcp"@[0] == 't' && "tcp"@[1] == 'c',
        "cache"@.len() == 5 && "cache"@[0] == 'c',
{
    reveal_strlit("arp");
    reveal_strlit("oui");
    reveal_strlit("mdns");
    reveal_strlit("netbios");
    reveal_strlit("upnp");
    reveal_strlit("deep");
    reveal_strlit("local");
    reveal_strlit("rdns");
    reveal_strlit("dhcp");
    reveal_strlit("lldp");
    reveal_strlit("cdp");
    reveal_strlit("http");
    reveal_strlit("tls");
    reveal_strlit("smb");
    reveal_strlit("snmp");
    reveal_strlit("icmp");
    reveal_strlit("tcp");
    reveal_strlit("cache");
}

/// The letters of the legend.
proof fn lemma_letters()
    ensures
        "A"@ == seq!['A'] && "O"@ == seq!['O'] && "M"@ == seq!['M'] && "N"@ == seq!['N'],
        "U"@ == seq!['U'] && "D"@ == seq!['D'] && "R"@ == seq!['R'] && "L"@ == seq!['L'],
        "C"@ == seq!['C'] && "Y"@ == seq!['Y'] && "V"@ == seq!['V'] && "B"@ == seq!['B'],
        "S"@ == seq!['S'] && "H"@ == seq!['H'] && "T"@ == seq!['T'] && "I"@ == seq!['I'],
        "P"@ == seq!['P'] && "K"@ == seq!['K'],
{
    reveal_strlit("A");
    reveal_strlit("O");
    reveal_strlit("M");
    reveal_strlit("N");
    reveal_strlit("U");
    reveal_strlit("D");
    reveal_strlit("R");
    reveal_strlit("L");
    reveal_strlit("C");
    reveal_strlit("Y");
    reveal_strlit("V");
    reveal_strlit("B");
    reveal_strlit("S");
    reveal_strlit("H");
    reveal_strlit("T");
    reveal_strlit("I");
    reveal_strlit("P");
    reveal_strlit("K");
}

/// The letters of a device are those of its sources, and no others.
pub proof fn law_letters_are_of_the_sources(all: Seq<Seq<char>>, c: char)
    ensures
        sources::codes_spec(all).contains(c) <==> exists|i: int|
            0 <= i < all.len() && sources::code_spec(#[trigger] all[i]) == c,
    decreases all.len(),
{
    if all.len() > 0 {
        let front = all.drop_last();
        let before = sources::codes_spec(front);
        let code = sources::code_spec(all.last());
        law_letters_are_of_the_sources(front, c);
        assert(all[all.len() - 1] == all.last());
        if !before.contains(code) {
            if before.contains(c) || c == code {
                sort::lemma_insert_keeps::<char, CharOrder>(before, code, c);
            }
            if sources::codes_spec(all).contains(c) {
                sort::lemma_insert_members::<char, CharOrder>(before, code, c);
            }
        }
        if exists|i: int| 0 <= i < front.len() && sources::code_spec(#[trigger] front[i]) == c {
            let i = choose|i: int|
                0 <= i < front.len() && sources::code_spec(#[trigger] front[i]) == c;
            assert(all[i] == front[i]);
        }
        if exists|i: int| 0 <= i < all.len() && sources::code_spec(#[trigger] all[i]) == c {
            let i = choose|i: int| 0 <= i < all.len() && sources::code_spec(#[trigger] all[i]) == c;
            if i < front.len() {
                assert(front[i] == all[i]);
            }
        }
    }
}

} // verus!
