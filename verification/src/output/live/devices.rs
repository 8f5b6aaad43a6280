//! Device keys, search, log text, and in-place merging for the live view.
//!
//! The live table receives partial snapshots from successive scan phases. The merge
//! policy protects enriched identity from being erased by later, weaker refreshes.

use crate::addr::IpAddr;
use crate::model::{Device, DeviceView, NameEvidenceView};
use crate::output::export::{confidence_text, guess_text, text_or_hyphen};
use crate::output::export;
use crate::output::live::layout::fit_cell;
use crate::output::live::layout;
use crate::output::privacy::{display_mac, OutputOptions};
use crate::output::privacy;
use crate::output::sources::{compact_source_summary, source_summary};
use crate::output::sources;
use crate::scanner::apply;
use crate::scanner::passive::merge_device_snapshot;
use crate::scanner::passive;
use crate::store::known_mac_conflict;
use crate::store;
use crate::text::{
    chars, concat3, contains, decimal, join, less, or_empty, replace_char, text, trim,
    unicode_lower, words,
};
use crate::text;
use vstd::prelude::*;

verus! {

/// What tells devices apart in the live table.
#[derive(Debug, PartialEq, Eq)]
pub struct DeviceKey {
    pub interface: String,
    pub ip: IpAddr,
}

/// The mathematical content of a [`DeviceKey`].
#[verifier::ext_equal]
pub struct DeviceKeyView {
    pub interface: Seq<char>,
    pub ip: IpAddr,
}

impl View for DeviceKey {
    type V = DeviceKeyView;

    open spec fn view(&self) -> DeviceKeyView {
        DeviceKeyView { interface: self.interface@, ip: self.ip }
    }
}

impl Clone for DeviceKey {
    fn clone(&self) -> (r: Self)
        ensures
            r@ == self@,
    {
        DeviceKey { interface: self.interface.clone(), ip: self.ip }
    }
}

/// The key of a device.
pub open spec fn key_of(d: DeviceView) -> DeviceKeyView {
    DeviceKeyView { interface: text::or_empty_spec(d.interface), ip: d.ip }
}

/// The order of keys: by interface, then by address.
pub open spec fn key_less(a: DeviceKeyView, b: DeviceKeyView) -> bool {
    text::less_spec(a.interface, b.interface) || (a.interface == b.interface && a.ip.less_spec(b.ip))
}

/// Of two keys exactly one comes first, unless they are the same.
pub proof fn lemma_key_total(a: DeviceKeyView, b: DeviceKeyView)
    ensures
        a == b ==> !key_less(a, b),
        a != b ==> (key_less(a, b) <==> !key_less(b, a)),
{
    crate::text::lemma_less_total(a.interface, b.interface);
}

/// The order of keys is transitive.
pub proof fn lemma_key_transitive(a: DeviceKeyView, b: DeviceKeyView, c: DeviceKeyView)
    requires
        key_less(a, b),
        key_less(b, c),
    ensures
        key_less(a, c),
{
    if text::less_spec(a.interface, b.interface) && text::less_spec(b.interface, c.interface) {
        crate::text::lemma_less_transitive(a.interface, b.interface, c.interface);
    }
}

impl DeviceKey {
    /// The key of a device.
    pub fn from_device(device: &Device) -> (r: Self)
        ensures
            r@ == key_of(device@),
    {
        DeviceKey { interface: or_empty(&device.interface), ip: device.ip }
    }

    /// Reports whether two keys are the same.
    pub fn same(&self, other: &DeviceKey) -> (r: bool)
        ensures
            r == (self@ == other@),
    {
        self.ip == other.ip && self.interface == other.interface
    }

    /// Reports whether the key comes before another.
    pub fn before(&self, other: &DeviceKey) -> (r: bool)
        ensures
            r == key_less(self@, other@),
    {
        let a = chars(self.interface.as_str());
        let b = chars(other.interface.as_str());
        if less(a.as_slice(), b.as_slice()) {
            true
        } else {
            self.interface == other.interface && self.ip.less(&other.ip)
        }
    }
}

/// The text of an optional value, as a list.
pub open spec fn listed(v: Option<Seq<char>>) -> Seq<Seq<char>> {
    match v {
        Some(v) => seq![v],
        None => seq![],
    }
}

/// The names of a device.
pub open spec fn name_texts(names: Seq<NameEvidenceView>) -> Seq<Seq<char>> {
    Seq::new(names.len(), |i: int| names[i].name)
}

/// What a search looks at.
pub open spec fn search_values(d: DeviceView) -> Seq<Seq<char>> {
    seq![d.ip.text_spec()] + listed(d.mac) + listed(d.vendor) + listed(export::guess_value(d.model))
        + listed(d.hostname) + name_texts(d.names) + listed(export::guess_value(d.os))
}

/// A query matches a device when it is blank, or occurs in one of the texts without
/// regard to case.
pub open spec fn search_matches(d: DeviceView, query: Seq<char>) -> bool {
    let needle = text::unicode_lower_spec(text::trim_spec(query));
    needle.len() == 0 || exists|i: int|
        0 <= i < search_values(d).len() && text::contains_spec(
            text::unicode_lower_spec(#[trigger] search_values(d)[i]),
            needle,
        )
}

/// Adds an optional text to a list.
fn push_opt(all: &mut Vec<String>, v: &Option<String>)
    ensures
        final(all).deep_view() == old(all).deep_view() + listed(v.deep_view()),
{
    let ghost before = all.deep_view();
    match v {
        Some(v) => {
            all.push(v.clone());
            proof {
                assert(all.deep_view() =~= before + seq![v@]);
            }
        },
        None => {
            proof {
                assert(all.deep_view() =~= before + seq![]);
            }
        },
    }
}

/// Lists what a search looks at.
fn list_search_values(device: &Device) -> (r: Vec<String>)
    ensures
        r.deep_view() == search_values(device@),
{
    let mut all: Vec<String> = Vec::new();
    all.push(device.ip.text());
    proof {
        assert(all.deep_view() =~= seq![device.ip.text_spec()]);
    }
    push_opt(&mut all, &device.mac);
    push_opt(&mut all, &device.vendor);
    push_opt(&mut all, &guess_text(&device.model));
    push_opt(&mut all, &device.hostname);
    let ghost front = all.deep_view();
    let ghost names = name_texts(device@.names);
    let mut i: usize = 0;
    proof {
        assert(front + names.take(0) =~= front);
    }
    while i < device.names.len()
        invariant
            i <= device.names@.len(),
            names == name_texts(device@.names),
            all.deep_view() == front + names.take(i as int),
        decreases device.names@.len() - i,
    {
        let ghost before = all.deep_view();
        all.push(device.names[i].name.clone());
        proof {
            assert(names[i as int] == device.names@[i as int].name@);
            assert(all.deep_view() =~= before.push(names[i as int]));
            assert(names.take(i + 1) =~= names.take(i as int).push(names[i as int]));
            assert(all.deep_view() =~= front + names.take(i + 1));
        }
        i = i + 1;
    }
    proof {
        assert(names.take(i as int) =~= names);
    }
    push_opt(&mut all, &guess_text(&device.os));
    proof {
        assert(all.deep_view() =~= search_values(device@));
    }
    all
}

/// Reports whether a query matches a device. Search follows the operator's mental
/// model: it looks at every visible identity field, not just the name column.
pub fn device_matches_search(device: &Device, query: &str) -> (r: bool)
    ensures
        r == search_matches(device@, query@),
{
    let all = chars(query);
    let needle = unicode_lower(text(trim(all.as_slice())).as_str());
    if chars(needle.as_str()).len() == 0 {
        return true;
    }
    let values = list_search_values(device);
    let ghost views = values.deep_view();
    let mut i: usize = 0;
    while i < values.len()
        invariant
            i <= values@.len(),
            views == values.deep_view(),
            views == search_values(device@),
            needle@ == text::unicode_lower_spec(text::trim_spec(query@)),
            forall|k: int|
                0 <= k < i ==> !text::contains_spec(text::unicode_lower_spec(#[trigger] views[k]), needle@),
        decreases values@.len() - i,
    {
        proof {
            assert(views[i as int] == values@[i as int]@);
        }
        let value = unicode_lower(values[i].as_str());
        if contains(chars(value.as_str()).as_slice(), needle.as_str()) {
            return true;
        }
        i = i + 1;
    }
    false
}

/// The text that debug formatting gives an optional text.
pub uninterp spec fn debug_text_spec(v: Option<Seq<char>>) -> Seq<char>;

/// `std::fmt::Debug` writes an optional text with its variant, quotes and escapes;
/// `format!` collects what it writes.
#[verifier::external_body]
fn debug_text(v: &Option<String>) -> (r: String)
    ensures
        r@ == debug_text_spec(v.deep_view()),
{
    format!("{v:?}")
}

/// A named field of a text.
pub open spec fn field(key: Seq<char>, value: Seq<char>) -> Seq<char> {
    key + "="@ + value
}

/// What makes a device's identity in the live log. When the device was last seen is
/// left out: continuous scanning should refresh cells without flooding the log when a
/// host is merely observed again.
pub open spec fn signature_spec(d: DeviceView) -> Seq<char> {
    text::join_spec(
        seq![
            field("mac"@, debug_text_spec(d.mac)),
            field("vendor"@, debug_text_spec(d.vendor)),
            field("name"@, debug_text_spec(d.hostname)),
            field("make"@, export::or_hyphen(export::guess_value(d.make))),
            field("model"@, export::or_hyphen(export::guess_value(d.model))),
            field("os"@, export::or_hyphen(export::guess_value(d.os))),
            field("type"@, export::or_hyphen(export::guess_value(d.device_type))),
            field("services"@, text::decimal_spec(d.services.len())),
            field("evidence"@, text::decimal_spec(d.evidence.len())),
            field("sources"@, text::join_spec(sources::sources_spec(d), ","@)),
            field("confidence"@, export::confidence_text_spec(d.identity_confidence())),
        ],
        "|"@,
    )
}

/// Writes what makes a device's identity in the live log.
pub fn live_identity_signature(device: &Device) -> (r: String)
    ensures
        r@ == signature_spec(device@),
{
    let mut parts: Vec<String> = Vec::new();
    parts.push(concat3("mac", "=", debug_text(&device.mac).as_str()));
    parts.push(concat3("vendor", "=", debug_text(&device.vendor).as_str()));
    parts.push(concat3("name", "=", debug_text(&device.hostname).as_str()));
    parts.push(concat3("make", "=", text_or_hyphen(&guess_text(&device.make)).as_str()));
    parts.push(concat3("model", "=", text_or_hyphen(&guess_text(&device.model)).as_str()));
    parts.push(concat3("os", "=", text_or_hyphen(&guess_text(&device.os)).as_str()));
    parts.push(concat3("type", "=", text_or_hyphen(&guess_text(&device.device_type)).as_str()));
    parts.push(concat3("services", "=", decimal(device.services.len() as u64).as_str()));
    parts.push(concat3("evidence", "=", decimal(device.evidence.len() as u64).as_str()));
    parts.push(concat3("sources", "=", source_summary(device).as_str()));
    parts.push(
        concat3("confidence", "=", confidence_text(device.identity_confidence()).as_str()),
    );
    proof {
        assert(parts.deep_view() =~= seq![
            field("mac"@, debug_text_spec(device@.mac)),
            field("vendor"@, debug_text_spec(device@.vendor)),
            field("name"@, debug_text_spec(device@.hostname)),
            field("make"@, export::or_hyphen(export::guess_value(device@.make))),
            field("model"@, export::or_hyphen(export::guess_value(device@.model))),
            field("os"@, export::or_hyphen(export::guess_value(device@.os))),
            field("type"@, export::or_hyphen(export::guess_value(device@.device_type))),
            field("services"@, text::decimal_spec(device@.services.len())),
            field("evidence"@, text::decimal_spec(device@.evidence.len())),
            field("sources"@, text::join_spec(sources::sources_spec(device@), ","@)),
            field("confidence"@, export::confidence_text_spec(device@.identity_confidence())),
        ]);
    }
    join(&parts, "|")
}

/// A value on one line, without the characters that separate fields, cut to length.
pub open spec fn log_value(value: Seq<char>, max_chars: nat) -> Seq<char> {
    layout::fit_spec(text::replace_char_spec(text::join_spec(text::words_spec(value), "_"@), ',', ';'), max_chars)
}

/// Makes a value fit for a log line.
fn log_field_value(value: &str, max_chars: usize) -> (r: String)
    ensures
        r@ == log_value(value@, max_chars as nat),
{
    let all = chars(value);
    let pieces = words(all.as_slice());
    let ghost views = text::words_spec(value@);
    let mut parts: Vec<String> = Vec::new();
    let mut i: usize = 0;
    proof {
        assert(parts.deep_view() =~= views.take(0));
    }
    while i < pieces.len()
        invariant
            i <= pieces@.len(),
            views == crate::text::slice_views(pieces@),
            parts.deep_view() == views.take(i as int),
        decreases pieces@.len() - i,
    {
        let ghost before = parts.deep_view();
        parts.push(text(pieces[i]));
        proof {
            assert(views[i as int] == pieces@[i as int]@);
            assert(parts.deep_view() =~= before.push(views[i as int]));
            assert(views.take(i + 1) =~= views.take(i as int).push(views[i as int]));
        }
        i = i + 1;
    }
    proof {
        assert(views.take(i as int) =~= views);
    }
    let joined = chars(join(&parts, "_").as_str());
    fit_cell(replace_char(joined.as_slice(), ',', ';'), max_chars)
}

/// A device in one line of the live log. `seen` is the local clock time at which it was
/// last seen.
pub open spec fn summary_spec(d: DeviceView, options: OutputOptions, seen: Seq<char>) -> Seq<char> {
    text::join_spec(
        seq![
            field("ip"@, d.ip.text_spec()),
            field("iface"@, export::or_hyphen(d.interface)),
            field("mac"@, log_value(privacy::display_mac_spec(d.mac, options), 17)),
            field("vendor"@, log_value(export::or_hyphen(d.vendor), 24)),
            field("model"@, log_value(export::or_hyphen(export::guess_value(d.model)), 20)),
            field("name"@, log_value(export::or_hyphen(d.hostname), 24)),
            field("os"@, log_value(export::or_hyphen(export::guess_value(d.os)), 20)),
            field("conf"@, export::confidence_text_spec(d.identity_confidence())),
            field("sources"@, sources::codes_spec(sources::sources_spec(d))),
            field("seen"@, seen),
            field("svc"@, text::decimal_spec(d.services.len())),
            field("ev"@, text::decimal_spec(d.evidence.len())),
        ],
        " "@,
    )
}

/// Writes a device in one line of the live log.
pub fn device_log_summary(device: &Device, options: OutputOptions, seen: &str) -> (r: String)
    ensures
        r@ == summary_spec(device@, options, seen@),
{
    let mut parts: Vec<String> = Vec::new();
    parts.push(concat3("ip", "=", device.ip.text().as_str()));
    parts.push(concat3("iface", "=", text_or_hyphen(&device.interface).as_str()));
    let mac = log_field_value(display_mac(&device.mac, options).as_str(), 17);
    parts.push(concat3("mac", "=", mac.as_str()));
    let vendor = log_field_value(text_or_hyphen(&device.vendor).as_str(), 24);
    parts.push(concat3("vendor", "=", vendor.as_str()));
    let model = log_field_value(text_or_hyphen(&guess_text(&device.model)).as_str(), 20);
    parts.push(concat3("model", "=", model.as_str()));
    let name = log_field_value(text_or_hyphen(&device.hostname).as_str(), 24);
    parts.push(concat3("name", "=", name.as_str()));
    let os = log_field_value(text_or_hyphen(&guess_text(&device.os)).as_str(), 20);
    parts.push(concat3("os", "=", os.as_str()));
    parts.push(concat3("conf", "=", confidence_text(device.identity_confidence()).as_str()));
    parts.push(concat3("sources", "=", compact_source_summary(device).as_str()));
    parts.push(concat3("seen", "=", seen));
    parts.push(concat3("svc", "=", decimal(device.services.len() as u64).as_str()));
    parts.push(concat3("ev", "=", decimal(device.evidence.len() as u64).as_str()));
    proof {
        let d = device@;
        assert(parts.deep_view() =~= seq![
            field("ip"@, d.ip.text_spec()),
            field("iface"@, export::or_hyphen(d.interface)),
            field("mac"@, log_value(privacy::display_mac_spec(d.mac, options), 17)),
            field("vendor"@, log_value(export::or_hyphen(d.vendor), 24)),
            field("model"@, log_value(export::or_hyphen(export::guess_value(d.model)), 20)),
            field("name"@, log_value(export::or_hyphen(d.hostname), 24)),
            field("os"@, log_value(export::or_hyphen(export::guess_value(d.os)), 20)),
            field("conf"@, export::confidence_text_spec(d.identity_confidence())),
            field("sources"@, sources::codes_spec(sources::sources_spec(d))),
            field("seen"@, seen@),
            field("svc"@, text::decimal_spec(d.services.len())),
            field("ev"@, text::decimal_spec(d.evidence.len())),
        ]);
    }
    join(&parts, " ")
}

/// Reports whether another device has taken over an address: both hardware addresses
/// are known, and they differ.
pub fn device_mac_changed(existing: &Device, incoming: &Device) -> (r: bool)
    ensures
        r == store::mac_conflict(existing@, incoming@),
{
    known_mac_conflict(existing, incoming)
}

/// Unites a row with a later snapshot of its device. Live events are snapshots at
/// different enrichment depths, not authoritative replacements: the next round starts
/// again with link-layer evidence, and replacing the row would briefly erase what the
/// previous round learned.
pub fn merge_live_device(existing: &mut Device, incoming: &Device)
    ensures
        final(existing)@ == passive::snapshot_merged(old(existing)@, incoming@),
        final(existing)@.ip == old(existing)@.ip,
{
    merge_device_snapshot(existing, incoming);
}

/// A snapshot erases nothing that a row holds: identity, services and evidence stay,
/// a missing interface is filled, the row holds what the snapshot says, and it covers
/// the times of both.
pub proof fn law_snapshot_keeps_all(d: DeviceView, other: DeviceView)
    ensures
        d.interface is Some ==> apply::keeps_all(d, passive::snapshot_merged(d, other)),
        d.interface is None ==> apply::keeps_all(
            DeviceView { interface: other.interface, ..d },
            passive::snapshot_merged(d, other),
        ),
        passive::snapshot_merged(d, other).holds(other),
        passive::snapshot_merged(d, other).first_seen == (if other.first_seen < d.first_seen {
            other.first_seen
        } else {
            d.first_seen
        }),
        passive::snapshot_merged(d, other).last_seen == (if other.last_seen > d.last_seen {
            other.last_seen
        } else {
            d.last_seen
        }),
{
    broadcast use {crate::model::lemma_extended_refl, crate::model::lemma_extended_trans};

    let filled = DeviceView {
        interface: match d.interface {
            Some(interface) => Some(interface),
            None => other.interface,
        },
        hostname: match d.hostname {
            Some(hostname) => Some(hostname),
            None => other.hostname,
        },
        ..d
    };
    let merged = passive::snapshot_merged(d, other);
    apply::law_merge_keeps_all(filled, other);
    let placed = DeviceView { interface: filled.interface, ..d };
    assert(placed.extended_by(filled)) by {
        reveal(DeviceView::extended_by);
    }
    assert(filled.extended_by(
        DeviceView { first_seen: d.first_seen, last_seen: d.last_seen, ..merged },
    ));
}

} // verus!
