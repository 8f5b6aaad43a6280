//! What the rows of the exports show of a device.

use crate::model::{Confidence, DeviceView, GuessView};
use crate::model;
use crate::output::export;
use crate::output::privacy::{MacAddressDisplay, OutputOptions};
use crate::output::sources;
use crate::text;
use vstd::prelude::*;

verus! {

/// A cell shows a text, or nothing where there is none.
pub open spec fn shows(cell: Seq<char>, value: Option<Seq<char>>) -> bool {
    match value {
        Some(v) => cell == v,
        None => cell.len() == 0,
    }
}

/// A cell shows a guess, or nothing where there is none.
pub open spec fn shows_guess(cell: Seq<char>, guess: Option<GuessView>) -> bool {
    match guess {
        Some(g) => cell == g.value,
        None => cell.len() == 0,
    }
}

/// A cell shows a text, or a hyphen where there is none.
pub open spec fn shows_or_hyphen(cell: Seq<char>, value: Option<Seq<char>>) -> bool {
    match value {
        Some(v) => cell == v,
        None => cell == seq!['-'],
    }
}

/// A cell shows a guess, or a hyphen where there is none.
pub open spec fn shows_guess_or_hyphen(cell: Seq<char>, guess: Option<GuessView>) -> bool {
    match guess {
        Some(g) => cell == g.value,
        None => cell == seq!['-'],
    }
}

/// A cell shows a confidence as a fraction with two decimals.
pub open spec fn shows_fraction(cell: Seq<char>, c: Confidence) -> bool {
    &&& cell.len() == 4
    &&& cell[1] == '.'
    &&& 48 <= cell[0] as int <= 57
    &&& 48 <= cell[2] as int <= 57
    &&& 48 <= cell[3] as int <= 57
    &&& (cell[0] as int - 48) * 100 + (cell[2] as int - 48) * 10 + (cell[3] as int - 48) == c
}

/// A cell shows the instant so many nanoseconds after the epoch.
pub open spec fn shows_instant(cell: Seq<char>, t: int) -> bool {
    exists|seconds: i64, nanos: u32|
        nanos < 1_000_000_000 && seconds * 1_000_000_000 + nanos == t && cell
            == #[trigger] export::rfc3339_spec(seconds, nanos)
}

/// The source is that of a guess.
pub open spec fn guessed_by(guess: Option<GuessView>, x: Seq<char>) -> bool {
    match guess {
        Some(g) => g.source == x,
        None => false,
    }
}

/// Something that is known of a device comes from a source.
pub open spec fn comes_from(d: DeviceView, x: Seq<char>) -> bool {
    ||| exists|i: int| 0 <= i < d.names.len() && (#[trigger] d.names[i]).source == x
    ||| exists|i: int| 0 <= i < d.evidence.len() && (#[trigger] d.evidence[i]).source == x
    ||| exists|i: int| 0 <= i < d.services.len() && (#[trigger] d.services[i]).source == x
    ||| guessed_by(d.make, x)
    ||| guessed_by(d.model, x)
    ||| guessed_by(d.os, x)
    ||| guessed_by(d.device_type, x)
}

/// What a list of sources has with more of them.
proof fn lemma_with_sources(all: Seq<Seq<char>>, more: Seq<Seq<char>>, x: Seq<char>)
    ensures
        sources::with_sources(all, more).contains(x) <==> all.contains(x) || (more.contains(x) && x
            != "identity_rule"@),
    decreases more.len(),
{
    if more.len() > 0 {
        let front = more.drop_last();
        lemma_with_sources(all, front, x);
        lemma_with_source(sources::with_sources(all, front), more.last(), x);
        assert(more[more.len() - 1] == more.last());
        if front.contains(x) {
            let k = choose|k: int| 0 <= k < front.len() && front[k] == x;
            assert(more[k] == x);
        }
        if more.contains(x) && x != more.last() {
            let k = choose|k: int| 0 <= k < more.len() && more[k] == x;
            assert(front[k] == x);
        }
    }
}

/// What a list of sources has with one more.
proof fn lemma_with_source(all: Seq<Seq<char>>, source: Seq<char>, x: Seq<char>)
    ensures
        sources::with_source(all, source).contains(x) <==> all.contains(x) || (source == x && x
            != "identity_rule"@),
        all.push(source).contains(x) <==> all.contains(x) || source == x,
{
    let t = all.push(source);
    assert(t[all.len() as int] == source);
    if all.contains(x) {
        let k = choose|k: int| 0 <= k < all.len() && all[k] == x;
        assert(t[k] == x);
    }
    if t.contains(x) && !all.contains(x) {
        let k = choose|k: int| 0 <= k < t.len() && t[k] == x;
        if k < all.len() {
            assert(all[k] == x);
        }
    }
}

/// What a list of sources has with that of a guess.
proof fn lemma_with_guess(all: Seq<Seq<char>>, g: Option<GuessView>, x: Seq<char>)
    ensures
        sources::with_guess(all, g).contains(x) <==> all.contains(x) || (guessed_by(g, x) && x
            != "identity_rule"@),
{
    if g is Some {
        lemma_with_source(all, g->0.source, x);
    }
}

/// The sources of a device are those of its names, its facts, its services, and its
/// guesses; ARP where its MAC address is known, and the OUI table where its vendor is.
/// The rule engine is none. Each stands once, in order.
pub proof fn law_sources_are_those_of_the_device(d: DeviceView, x: Seq<char>)
    ensures
        sources::sources_spec(d).contains(x) <==> (comes_from(d, x) && x != "identity_rule"@) || (
        d.mac is Some && x == "arp"@) || (d.vendor is Some && x == "oui"@),
        text::increasing(sources::sources_spec(d)),
{
    let none = Seq::<Seq<char>>::empty();
    let a = sources::with_sources(none, sources::name_sources(d));
    lemma_with_sources(none, sources::name_sources(d), x);
    let b = sources::with_guess(a, d.make);
    lemma_with_guess(a, d.make, x);
    let c = sources::with_guess(b, d.model);
    lemma_with_guess(b, d.model, x);
    let e = sources::with_guess(c, d.os);
    lemma_with_guess(c, d.os, x);
    let f = sources::with_guess(e, d.device_type);
    lemma_with_guess(e, d.device_type, x);
    let g = sources::with_sources(f, sources::fact_sources(d));
    lemma_with_sources(f, sources::fact_sources(d), x);
    let h = sources::with_sources(g, sources::service_sources(d));
    lemma_with_sources(g, sources::service_sources(d), x);
    let k = if d.mac is Some {
        h.push("arp"@)
    } else {
        h
    };
    lemma_with_source(h, "arp"@, x);
    lemma_with_source(k, "oui"@, x);
    text::lemma_sorted_set(sources::all_sources(d));
    let names = sources::name_sources(d);
    let facts = sources::fact_sources(d);
    let services = sources::service_sources(d);
    assert(names.contains(x) <==> exists|i: int|
        0 <= i < d.names.len() && (#[trigger] d.names[i]).source == x) by {
        if names.contains(x) {
            let i = choose|i: int| 0 <= i < names.len() && names[i] == x;
            assert(d.names[i].source == x);
        }
        if exists|i: int| 0 <= i < d.names.len() && (#[trigger] d.names[i]).source == x {
            let i = choose|i: int| 0 <= i < d.names.len() && (#[trigger] d.names[i]).source == x;
            assert(names[i] == x);
        }
    }
    assert(facts.contains(x) <==> exists|i: int|
        0 <= i < d.evidence.len() && (#[trigger] d.evidence[i]).source == x) by {
        if facts.contains(x) {
            let i = choose|i: int| 0 <= i < facts.len() && facts[i] == x;
            assert(d.evidence[i].source == x);
        }
        if exists|i: int| 0 <= i < d.evidence.len() && (#[trigger] d.evidence[i]).source == x {
            let i = choose|i: int|
                0 <= i < d.evidence.len() && (#[trigger] d.evidence[i]).source == x;
            assert(facts[i] == x);
        }
    }
    assert(services.contains(x) <==> exists|i: int|
        0 <= i < d.services.len() && (#[trigger] d.services[i]).source == x) by {
        if services.contains(x) {
            let i = choose|i: int| 0 <= i < services.len() && services[i] == x;
            assert(d.services[i].source == x);
        }
        if exists|i: int| 0 <= i < d.services.len() && (#[trigger] d.services[i]).source == x {
            let i = choose|i: int|
                0 <= i < d.services.len() && (#[trigger] d.services[i]).source == x;
            assert(services[i] == x);
        }
    }
}

/// The largest of a list.
proof fn lemma_max(levels: Seq<Confidence>)
    ensures
        forall|i: int| 0 <= i < levels.len() ==> #[trigger] levels[i] <= model::max_confidence(
            levels,
        ),
        model::max_confidence(levels) == 0 || levels.contains(model::max_confidence(levels)),
    decreases levels.len(),
{
    if levels.len() > 0 {
        let front = levels.drop_last();
        lemma_max(front);
        assert(levels[levels.len() - 1] == levels.last());
        assert forall|i: int| 0 <= i < levels.len() implies #[trigger] levels[i]
            <= model::max_confidence(levels) by {
            if i < front.len() {
                assert(front[i] == levels[i]);
            }
        }
        if front.contains(model::max_confidence(front)) {
            let k = choose|k: int|
                0 <= k < front.len() && front[k] == model::max_confidence(front);
            assert(levels[k] == model::max_confidence(front));
        }
    }
}

/// Something that is known of a device has a confidence.
pub open spec fn backed(d: DeviceView, c: Confidence) -> bool {
    ||| exists|i: int| 0 <= i < d.names.len() && (#[trigger] d.names[i]).confidence == c
    ||| exists|i: int| 0 <= i < d.evidence.len() && (#[trigger] d.evidence[i]).confidence == c
    ||| exists|i: int| 0 <= i < d.services.len() && (#[trigger] d.services[i]).confidence == c
    ||| d.make is Some && d.make->0.confidence == c
    ||| d.model is Some && d.model->0.confidence == c
    ||| d.os is Some && d.os->0.confidence == c
    ||| d.device_type is Some && d.device_type->0.confidence == c
    ||| d.vendor is Some && c == 55
    ||| d.mac is Some && c == 50
}

/// The confidence of an identity is that of the strongest of everything that is known of
/// the device, at most one hundred: a vendor counts fifty-five, and a MAC address fifty.
pub proof fn law_identity_is_as_sure_as_its_strongest_sign(d: DeviceView)
    ensures
        ({
            let best = d.identity_confidence();
            &&& best <= 100
            &&& forall|c: Confidence| #[trigger] backed(d, c) ==> best >= c || best == 100
            &&& best == 0 || backed(d, best) || (best == 100 && exists|c: Confidence|
                c > 100 && #[trigger] backed(d, c))
        }),
{
    let names = d.names.map_values(|n: model::NameEvidenceView| n.confidence);
    let services = d.services.map_values(|s: model::ServiceEvidenceView| s.confidence);
    let facts = d.evidence.map_values(|e: model::EvidenceView| e.confidence);
    lemma_max(names);
    lemma_max(services);
    lemma_max(facts);
    let best = d.identity_confidence();
    assert forall|c: Confidence| #[trigger] backed(d, c) implies best >= c || best == 100 by {
        if exists|i: int| 0 <= i < d.names.len() && (#[trigger] d.names[i]).confidence == c {
            let i = choose|i: int|
                0 <= i < d.names.len() && (#[trigger] d.names[i]).confidence == c;
            assert(names[i] == c);
        }
        if exists|i: int| 0 <= i < d.evidence.len() && (#[trigger] d.evidence[i]).confidence == c {
            let i = choose|i: int|
                0 <= i < d.evidence.len() && (#[trigger] d.evidence[i]).confidence == c;
            assert(facts[i] == c);
        }
        if exists|i: int| 0 <= i < d.services.len() && (#[trigger] d.services[i]).confidence == c {
            let i = choose|i: int|
                0 <= i < d.services.len() && (#[trigger] d.services[i]).confidence == c;
            assert(services[i] == c);
        }
    }
    let n = model::max_confidence(names);
    let s = model::max_confidence(services);
    let f = model::max_confidence(facts);
    if names.contains(n) {
        let i = choose|i: int| 0 <= i < names.len() && names[i] == n;
        assert(d.names[i].confidence == n);
        assert(backed(d, n));
    }
    if services.contains(s) {
        let i = choose|i: int| 0 <= i < services.len() && services[i] == s;
        assert(d.services[i].confidence == s);
        assert(backed(d, s));
    }
    if facts.contains(f) {
        let i = choose|i: int| 0 <= i < facts.len() && facts[i] == f;
        assert(d.evidence[i].confidence == f);
        assert(backed(d, f));
    }
    if d.make is Some {
        assert(backed(d, d.make->0.confidence));
    }
    if d.model is Some {
        assert(backed(d, d.model->0.confidence));
    }
    if d.os is Some {
        assert(backed(d, d.os->0.confidence));
    }
    if d.device_type is Some {
        assert(backed(d, d.device_type->0.confidence));
    }
    if d.vendor is Some {
        assert(backed(d, 55));
    }
    if d.mac is Some {
        assert(backed(d, 50));
    }
}

/// A confidence is shown as a fraction.
pub proof fn lemma_fraction(c: Confidence)
    requires
        c <= 100,
    ensures
        shows_fraction(export::confidence_text_spec(c), c),
{
    reveal_strlit(".");
    reveal_with_fuel(text::decimal_spec, 2);
    let a = text::decimal_spec((c / 100) as nat);
    let b = text::decimal_spec((c % 100 / 10) as nat);
    let e = text::decimal_spec((c % 10) as nat);
    assert(a =~= seq![text::digit_char((c / 100) as nat)]);
    assert(b =~= seq![text::digit_char((c % 100 / 10) as nat)]);
    assert(e =~= seq![text::digit_char((c % 10) as nat)]);
    let t = export::confidence_text_spec(c);
    assert(t =~= seq![
        text::digit_char((c / 100) as nat),
        '.',
        text::digit_char((c % 100 / 10) as nat),
        text::digit_char((c % 10) as nat),
    ]);
}

/// An instant is shown by its seconds and its nanoseconds.
proof fn lemma_instant(t: i128)
    requires
        export::valid_instant(t),
    ensures
        shows_instant(export::instant_text_spec(t), t as int),
{
    let seconds = (t as int / 1_000_000_000) as i64;
    let nanos = (t as int % 1_000_000_000) as u32;
    assert(seconds == t as int / 1_000_000_000);
    assert(export::instant_text_spec(t) == export::rfc3339_spec(seconds, nanos));
}

/// Every cell of the CSV export is what the header above it names: the first record is
/// the header, and the record of a device has under each name that field of the device.
pub proof fn law_csv_cells_are_what_the_header_names(devices: Seq<DeviceView>, i: int)
    requires
        0 <= i < devices.len(),
        export::valid_times(devices),
    ensures
        ({
            let options = OutputOptions { mac: MacAddressDisplay::Full };
            let records = export::csv_records_spec(devices, options);
            let header = records[0];
            let row = records[i + 1];
            let d = devices[i];
            &&& records.len() == devices.len() + 1
            &&& header.len() == 13 && row.len() == 13
            &&& header[0] == "ip"@ && row[0] == d.ip.text_spec()
            &&& header[1] == "interface"@ && shows(row[1], d.interface)
            &&& header[2] == "mac"@ && shows(row[2], d.mac)
            &&& header[3] == "vendor"@ && shows(row[3], d.vendor)
            &&& header[4] == "make"@ && shows_guess(row[4], d.make)
            &&& header[5] == "model"@ && shows_guess(row[5], d.model)
            &&& header[6] == "hostname"@ && shows(row[6], d.hostname)
            &&& header[7] == "os"@ && shows_guess(row[7], d.os)
            &&& header[8] == "device_type"@ && shows_guess(row[8], d.device_type)
            &&& header[9] == "confidence"@ && shows_fraction(row[9], d.identity_confidence())
            &&& header[10] == "sources"@ && row[10] == text::join_spec(
                sources::sources_spec(d),
                seq![','],
            )
            &&& header[11] == "first_seen"@ && shows_instant(row[11], d.first_seen as int)
            &&& header[12] == "last_seen"@ && shows_instant(row[12], d.last_seen as int)
        }),
{
    let options = OutputOptions { mac: MacAddressDisplay::Full };
    let d = devices[i];
    law_identity_is_as_sure_as_its_strongest_sign(d);
    lemma_fraction(d.identity_confidence());
    assert(export::valid_instant(devices[i].first_seen));
    lemma_instant(d.first_seen);
    lemma_instant(d.last_seen);
    reveal_strlit(",");
    reveal_strlit("");
    assert(","@ =~= seq![',']);
    assert(export::csv_records_spec(devices, options)[i + 1] == export::csv_row(d, options));
}

/// Every cell of the table is what the header above it names.
pub proof fn law_table_cells_are_what_the_header_names(devices: Seq<DeviceView>, i: int)
    requires
        0 <= i < devices.len(),
        export::valid_times(devices),
    ensures
        ({
            let options = OutputOptions { mac: MacAddressDisplay::Full };
            let rows = export::table_rows_spec(devices, options);
            let header = export::table_header();
            let row = rows[i];
            let d = devices[i];
            &&& rows.len() == devices.len()
            &&& header.len() == 11 && row.len() == 11
            &&& header[0] == "IP"@ && row[0] == d.ip.text_spec()
            &&& header[1] == "Iface"@ && shows_or_hyphen(row[1], d.interface)
            &&& header[2] == "MAC"@ && shows_or_hyphen(row[2], d.mac)
            &&& header[3] == "Vendor"@ && shows_or_hyphen(row[3], d.vendor)
            &&& header[4] == "Make"@ && shows_guess_or_hyphen(row[4], d.make)
            &&& header[5] == "Model"@ && shows_guess_or_hyphen(row[5], d.model)
            &&& header[6] == "Name"@ && shows_or_hyphen(row[6], d.hostname)
            &&& header[7] == "OS"@ && shows_guess_or_hyphen(row[7], d.os)
            &&& header[8] == "Confidence"@ && shows_fraction(row[8], d.identity_confidence())
            &&& header[9] == "Sources"@ && row[9] == text::join_spec(
                sources::sources_spec(d),
                seq![','],
            )
            &&& header[10] == "Last Seen"@ && shows_instant(row[10], d.last_seen as int)
        }),
{
    let options = OutputOptions { mac: MacAddressDisplay::Full };
    let d = devices[i];
    law_identity_is_as_sure_as_its_strongest_sign(d);
    lemma_fraction(d.identity_confidence());
    assert(export::valid_instant(devices[i].last_seen));
    lemma_instant(d.last_seen);
    reveal_strlit(",");
    reveal_strlit("-");
    assert(","@ =~= seq![',']);
    assert("-"@ =~= seq!['-']);
    assert(export::table_rows_spec(devices, options)[i] == export::table_row(d, options));
}

} // verus!
