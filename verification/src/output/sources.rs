//! Display summaries for evidence sources.
//!
//! Source summaries are presentation metadata, not scanner state. They explain where
//! visible identity came from while hiding rule-engine entries that would otherwise
//! duplicate the underlying evidence source.

use crate::model::{Device, DeviceView, EvidenceView, Guess, GuessView, NameEvidenceView, ServiceEvidenceView};
use crate::sort::{insert, SortOrder};
use crate::sort;
use crate::text::{chars, insert_sorted, join, owned, str_eq, text, to_upper};
use crate::text;
use vstd::prelude::*;

verus! {

/// The codes of the compact summary, and what they stand for.
pub open spec fn legend_spec() -> Seq<(Seq<char>, Seq<char>)> {
    seq![
        ("A"@, "ARP"@),
        ("O"@, "OUI"@),
        ("M"@, "mDNS"@),
        ("N"@, "NetBIOS"@),
        ("U"@, "UPnP"@),
        ("D"@, "Deep"@),
        ("R"@, "rDNS"@),
        ("L"@, "Local"@),
        ("C"@, "DHCP"@),
        ("Y"@, "LLDP"@),
        ("V"@, "CDP"@),
        ("B"@, "SMB"@),
        ("S"@, "SNMP"@),
        ("H"@, "HTTP"@),
        ("T"@, "TLS"@),
        ("I"@, "ICMP"@),
        ("P"@, "TCP"@),
        ("K"@, "Cache"@),
    ]
}

/// The content of a list of pairs of texts.
pub open spec fn pairs_view(v: Seq<(&'static str, &'static str)>) -> Seq<(Seq<char>, Seq<char>)> {
    v.map_values(|p: (&'static str, &'static str)| (p.0@, p.1@))
}

/// Lists the codes of the compact summary, and what they stand for.
pub fn source_legend() -> (r: Vec<(&'static str, &'static str)>)
    ensures
        pairs_view(r@) == legend_spec(),
{
    let mut r: Vec<(&'static str, &'static str)> = Vec::new();
    r.push(("A", "ARP"));
    r.push(("O", "OUI"));
    r.push(("M", "mDNS"));
    r.push(("N", "NetBIOS"));
    r.push(("U", "UPnP"));
    r.push(("D", "Deep"));
    r.push(("R", "rDNS"));
    r.push(("L", "Local"));
    r.push(("C", "DHCP"));
    r.push(("Y", "LLDP"));
    r.push(("V", "CDP"));
    r.push(("B", "SMB"));
    r.push(("S", "SNMP"));
    r.push(("H", "HTTP"));
    r.push(("T", "TLS"));
    r.push(("I", "ICMP"));
    r.push(("P", "TCP"));
    r.push(("K", "Cache"));
    proof {
        assert(pairs_view(r@) =~= legend_spec());
    }
    r
}

/// A list with a source appended, unless it is the rule engine. Rules are derived from
/// observations: to show both "upnp" and "identity_rule" would make a row look
/// better-sourced than it is.
pub open spec fn with_source(all: Seq<Seq<char>>, source: Seq<char>) -> Seq<Seq<char>> {
    if source == "identity_rule"@ {
        all
    } else {
        all.push(source)
    }
}

/// A list with the source of a guess appended.
pub open spec fn with_guess(all: Seq<Seq<char>>, g: Option<GuessView>) -> Seq<Seq<char>> {
    match g {
        Some(g) => with_source(all, g.source),
        None => all,
    }
}

/// A list with the sources of several texts appended.
pub open spec fn with_sources(all: Seq<Seq<char>>, sources: Seq<Seq<char>>) -> Seq<Seq<char>>
    decreases sources.len(),
{
    if sources.len() == 0 {
        all
    } else {
        with_source(with_sources(all, sources.drop_last()), sources.last())
    }
}

/// The sources of the names of a device.
pub open spec fn name_sources(d: DeviceView) -> Seq<Seq<char>> {
    d.names.map_values(|n: NameEvidenceView| n.source)
}

/// The sources of the facts of a device.
pub open spec fn fact_sources(d: DeviceView) -> Seq<Seq<char>> {
    d.evidence.map_values(|e: EvidenceView| e.source)
}

/// The sources of the services of a device.
pub open spec fn service_sources(d: DeviceView) -> Seq<Seq<char>> {
    d.services.map_values(|s: ServiceEvidenceView| s.source)
}

/// The sources of everything that is known of a device, in the order in which they
/// are looked at. A MAC address stands for ARP and a vendor for the OUI table.
pub open spec fn all_sources(d: DeviceView) -> Seq<Seq<char>> {
    let all = with_sources(seq![], name_sources(d));
    let all = with_guess(all, d.make);
    let all = with_guess(all, d.model);
    let all = with_guess(all, d.os);
    let all = with_guess(all, d.device_type);
    let all = with_sources(all, fact_sources(d));
    let all = with_sources(all, service_sources(d));
    let all = if d.mac is Some {
        all.push("arp"@)
    } else {
        all
    };
    if d.vendor is Some {
        all.push("oui"@)
    } else {
        all
    }
}

/// The sources of a device, in order and each once.
pub open spec fn sources_spec(d: DeviceView) -> Seq<Seq<char>> {
    text::sorted_set_spec(all_sources(d))
}

/// Adds a source in its place, unless it is the rule engine.
fn add_source(sources: &mut Vec<String>, source: &str, Ghost(seen): Ghost<Seq<Seq<char>>>)
    requires
        old(sources).deep_view() == text::sorted_set_spec(seen),
    ensures
        final(sources).deep_view() == text::sorted_set_spec(with_source(seen, source@)),
{
    if !str_eq(source, "identity_rule") {
        insert_sorted(sources, owned(source));
        proof {
            assert(seen.push(source@).drop_last() =~= seen);
        }
    }
}

/// Adds the source of a guess.
fn add_guess(sources: &mut Vec<String>, g: &Option<Guess>, Ghost(seen): Ghost<Seq<Seq<char>>>)
    requires
        old(sources).deep_view() == text::sorted_set_spec(seen),
    ensures
        final(sources).deep_view() == text::sorted_set_spec(with_guess(seen, g.deep_view())),
{
    match g {
        Some(g) => add_source(sources, g.source.as_str(), Ghost(seen)),
        None => {},
    }
}

/// Collects the sources of a device.
pub fn collect_device_sources(device: &Device) -> (r: Vec<String>)
    ensures
        r.deep_view() == sources_spec(device@),
{
    let mut sources: Vec<String> = Vec::new();
    let ghost mut seen: Seq<Seq<char>> = seq![];
    proof {
        assert(sources.deep_view() =~= text::sorted_set_spec(seen));
    }
    let ghost start = seen;
    let ghost names = name_sources(device@);
    let mut i: usize = 0;
    while i < device.names.len()
        invariant
            i <= device.names@.len(),
            names.len() == device.names@.len(),
            forall|k: int| 0 <= k < names.len() ==> #[trigger] names[k] == device.names@[k]@.source,
            seen == with_sources(start, names.take(i as int)),
            sources.deep_view() == text::sorted_set_spec(seen),
        decreases device.names@.len() - i,
    {
        proof {
            assert(names.take(i + 1).drop_last() =~= names.take(i as int));
            assert(names.take(i + 1).last() == device.names@[i as int]@.source);
        }
        add_source(&mut sources, device.names[i].source.as_str(), Ghost(seen));
        proof {
            seen = with_source(seen, device.names@[i as int]@.source);
        }
        i = i + 1;
    }
    proof {
        assert(names.take(i as int) =~= names);
    }
    add_guess(&mut sources, &device.make, Ghost(seen));
    proof {
        seen = with_guess(seen, device@.make);
    }
    add_guess(&mut sources, &device.model, Ghost(seen));
    proof {
        seen = with_guess(seen, device@.model);
    }
    add_guess(&mut sources, &device.os, Ghost(seen));
    proof {
        seen = with_guess(seen, device@.os);
    }
    add_guess(&mut sources, &device.device_type, Ghost(seen));
    proof {
        seen = with_guess(seen, device@.device_type);
    }
    let ghost start = seen;
    let ghost evidence = fact_sources(device@);
    let mut i: usize = 0;
    while i < device.evidence.len()
        invariant
            i <= device.evidence@.len(),
            evidence.len() == device.evidence@.len(),
            forall|k: int| 0 <= k < evidence.len() ==> #[trigger] evidence[k] == device.evidence@[k]@.source,
            seen == with_sources(start, evidence.take(i as int)),
            sources.deep_view() == text::sorted_set_spec(seen),
        decreases device.evidence@.len() - i,
    {
        proof {
            assert(evidence.take(i + 1).drop_last() =~= evidence.take(i as int));
            assert(evidence.take(i + 1).last() == device.evidence@[i as int]@.source);
        }
        add_source(&mut sources, device.evidence[i].source.as_str(), Ghost(seen));
        proof {
            seen = with_source(seen, device.evidence@[i as int]@.source);
        }
        i = i + 1;
    }
    proof {
        assert(evidence.take(i as int) =~= evidence);
    }
    let ghost start = seen;
    let ghost services = service_sources(device@);
    let mut i: usize = 0;
    while i < device.services.len()
        invariant
            i <= device.services@.len(),
            services.len() == device.services@.len(),
            forall|k: int| 0 <= k < services.len() ==> #[trigger] services[k] == device.services@[k]@.source,
            seen == with_sources(start, services.take(i as int)),
            sources.deep_view() == text::sorted_set_spec(seen),
        decreases device.services@.len() - i,
    {
        proof {
            assert(services.take(i + 1).drop_last() =~= services.take(i as int));
            assert(services.take(i + 1).last() == device.services@[i as int]@.source);
        }
        add_source(&mut sources, device.services[i].source.as_str(), Ghost(seen));
        proof {
            seen = with_source(seen, device.services@[i as int]@.source);
        }
        i = i + 1;
    }
    proof {
        assert(services.take(i as int) =~= services);
    }
    if device.mac.is_some() {
        insert_sorted(&mut sources, owned("arp"));
        proof {
            assert(seen.push("arp"@).drop_last() =~= seen);
            seen = seen.push("arp"@);
            assert(sources.deep_view() == text::sorted_set_spec(seen));
        }
    }
    if device.vendor.is_some() {
        insert_sorted(&mut sources, owned("oui"));
        proof {
            assert(seen.push("oui"@).drop_last() =~= seen);
            seen = seen.push("oui"@);
            assert(sources.deep_view() == text::sorted_set_spec(seen));
        }
    }
    sources
}

/// Sums up the sources of a device.
pub fn source_summary(device: &Device) -> (r: String)
    ensures
        r@ == text::join_spec(sources_spec(device@), ","@),
{
    join(&collect_device_sources(device), ",")
}

/// The letter of a source: its own, or the first of its name.
pub open spec fn code_spec(source: Seq<char>) -> char {
    if source == "arp"@ {
        'A'
    } else if source == "oui"@ {
        'O'
    } else if source == "mdns"@ {
        'M'
    } else if source == "netbios"@ {
        'N'
    } else if source == "upnp"@ {
        'U'
    } else if source == "deep"@ {
        'D'
    } else if source == "local"@ {
        'L'
    } else if source == "rdns"@ {
        'R'
    } else if source == "dhcp"@ {
        'C'
    } else if source == "lldp"@ {
        'Y'
    } else if source == "cdp"@ {
        'V'
    } else if source == "http"@ {
        'H'
    } else if source == "tls"@ {
        'T'
    } else if source == "smb"@ {
        'B'
    } else if source == "snmp"@ {
        'S'
    } else if source == "icmp"@ {
        'I'
    } else if source == "tcp"@ {
        'P'
    } else if source == "cache"@ {
        'K'
    } else if source.len() > 0 {
        text::upper_char(source[0])
    } else {
        '?'
    }
}

/// The letter of a source.
pub fn source_code(source: &str) -> (r: char)
    ensures
        r == code_spec(source@),
{
    if str_eq(source, "arp") {
        'A'
    } else if str_eq(source, "oui") {
        'O'
    } else if str_eq(source, "mdns") {
        'M'
    } else if str_eq(source, "netbios") {
        'N'
    } else if str_eq(source, "upnp") {
        'U'
    } else if str_eq(source, "deep") {
        'D'
    } else if str_eq(source, "local") {
        'L'
    } else if str_eq(source, "rdns") {
        'R'
    } else if str_eq(source, "dhcp") {
        'C'
    } else if str_eq(source, "lldp") {
        'Y'
    } else if str_eq(source, "cdp") {
        'V'
    } else if str_eq(source, "http") {
        'H'
    } else if str_eq(source, "tls") {
        'T'
    } else if str_eq(source, "smb") {
        'B'
    } else if str_eq(source, "snmp") {
        'S'
    } else if str_eq(source, "icmp") {
        'I'
    } else if str_eq(source, "tcp") {
        'P'
    } else if str_eq(source, "cache") {
        'K'
    } else {
        let c = chars(source);
        if c.len() > 0 {
            to_upper(c[0])
        } else {
            '?'
        }
    }
}

/// Characters by code point.
pub struct CharOrder {}

impl SortOrder<char> for CharOrder {
    open spec fn before(a: char, b: char) -> bool {
        a < b
    }

    fn comes_before(a: &char, b: &char) -> (r: bool) {
        *a < *b
    }

    proof fn asymmetric(a: char, b: char) {
    }

    proof fn transitive(a: char, b: char, c: char) {
    }
}

/// The letters of several sources, in order and each once.
pub open spec fn codes_spec(sources: Seq<Seq<char>>) -> Seq<char>
    decreases sources.len(),
{
    if sources.len() == 0 {
        seq![]
    } else {
        let before = codes_spec(sources.drop_last());
        let code = code_spec(sources.last());
        if before.contains(code) {
            before
        } else {
            sort::insert_spec::<char, CharOrder>(before, code)
        }
    }
}

/// Reports whether a character is in a list.
fn has_char(all: &Vec<char>, c: char) -> (r: bool)
    ensures
        r == all@.contains(c),
{
    let mut i: usize = 0;
    while i < all.len()
        invariant
            i <= all@.len(),
            forall|k: int| 0 <= k < i ==> all@[k] != c,
        decreases all@.len() - i,
    {
        if all[i] == c {
            return true;
        }
        i = i + 1;
    }
    false
}

/// Sums up the sources of a device in letters. The live table has very little
/// horizontal budget; letters keep sources visible without crowding out identity.
pub fn compact_source_summary(device: &Device) -> (r: String)
    ensures
        r@ == codes_spec(sources_spec(device@)),
{
    let sources = collect_device_sources(device);
    let ghost views = sources.deep_view();
    let mut codes: Vec<char> = Vec::new();
    let mut i: usize = 0;
    while i < sources.len()
        invariant
            i <= sources@.len(),
            views == sources.deep_view(),
            codes@ == codes_spec(views.take(i as int)),
        decreases sources@.len() - i,
    {
        proof {
            assert(views.take(i + 1).drop_last() =~= views.take(i as int));
            assert(views.take(i + 1).last() == sources@[i as int]@);
            assert(codes.deep_view() =~= codes@);
        }
        let code = source_code(sources[i].as_str());
        if !has_char(&codes, code) {
            insert::<char, CharOrder>(&mut codes, code);
            proof {
                assert(codes.deep_view() =~= codes@);
            }
        }
        i = i + 1;
    }
    proof {
        assert(views.take(i as int) =~= views);
    }
    text(codes.as_slice())
}

/// Only what was pushed is found.
proof fn lemma_not_rule(all: Seq<Seq<char>>, sources: Seq<Seq<char>>)
    requires
        !all.contains("identity_rule"@),
    ensures
        !with_sources(all, sources).contains("identity_rule"@),
    decreases sources.len(),
{
    if sources.len() > 0 {
        lemma_not_rule(all, sources.drop_last());
        let before = with_sources(all, sources.drop_last());
        let after = with_sources(all, sources);
        if after.contains("identity_rule"@) {
            let i = choose|i: int| 0 <= i < after.len() && after[i] == "identity_rule"@;
            if i < before.len() {
                assert(before[i] == "identity_rule"@);
            }
        }
    }
}

/// A guess of a rule is not found.
proof fn lemma_not_rule_guess(all: Seq<Seq<char>>, g: Option<GuessView>)
    requires
        !all.contains("identity_rule"@),
    ensures
        !with_guess(all, g).contains("identity_rule"@),
{
    let after = with_guess(all, g);
    if after.contains("identity_rule"@) {
        let i = choose|i: int| 0 <= i < after.len() && after[i] == "identity_rule"@;
        if i < all.len() {
            assert(all[i] == "identity_rule"@);
        }
    }
}

/// The rule engine is never shown as a source, and every source is shown once.
pub proof fn law_rule_engine_is_not_a_source(d: DeviceView)
    ensures
        !sources_spec(d).contains("identity_rule"@),
        text::increasing(sources_spec(d)),
{
    let none = Seq::<Seq<char>>::empty();
    let a = with_sources(none, name_sources(d));
    lemma_not_rule(none, name_sources(d));
    let b = with_guess(a, d.make);
    lemma_not_rule_guess(a, d.make);
    let c = with_guess(b, d.model);
    lemma_not_rule_guess(b, d.model);
    let e = with_guess(c, d.os);
    lemma_not_rule_guess(c, d.os);
    let f = with_guess(e, d.device_type);
    lemma_not_rule_guess(e, d.device_type);
    let g = with_sources(f, fact_sources(d));
    lemma_not_rule(f, fact_sources(d));
    let h = with_sources(g, service_sources(d));
    lemma_not_rule(g, service_sources(d));
    let all = all_sources(d);
    reveal_strlit("identity_rule");
    reveal_strlit("arp");
    reveal_strlit("oui");
    if all.contains("identity_rule"@) {
        let i = choose|i: int| 0 <= i < all.len() && all[i] == "identity_rule"@;
        if i < h.len() {
            assert(h[i] == "identity_rule"@);
        } else {
            assert(all[i].len() == 3);
        }
    }
    text::lemma_sorted_set(all);
}

} // verus!
