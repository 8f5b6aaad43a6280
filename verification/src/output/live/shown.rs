//! What the live view shows and how it follows the keys.

use crate::model::{DeviceView, Timestamp};
use crate::net::InterfaceInfoView;
use crate::output::export;
use crate::output::live::columns::DeviceColumn;
use crate::output::live::devices;
use crate::output::live::interfaces::InterfaceColumn;
use crate::output::live::table::{
    KeyCode, KeyEvent, LiveInputAction, LiveRow, LiveRowView, LiveTableView, RowOrder,
};
use crate::output::live::table;
use crate::output::privacy::{MacAddressDisplay, OutputOptions};
use crate::output::rows;
use crate::output::sources;
use crate::scanner::types::{ScanEventView, ScanProfile};
use crate::sort;
use crate::text;
use vstd::prelude::*;

verus! {

/// Every column of the live view shows what its head names.
pub proof fn law_live_cells_are_what_the_head_names(d: DeviceView, seen: Seq<char>)
    ensures
        ({
            let options = OutputOptions { mac: MacAddressDisplay::Full };
            let ip = DeviceColumn::Ip;
            let interface = DeviceColumn::Interface;
            let mac = DeviceColumn::Mac;
            let vendor = DeviceColumn::Vendor;
            let model = DeviceColumn::Model;
            let name = DeviceColumn::Name;
            let os = DeviceColumn::Os;
            let sure = DeviceColumn::Confidence;
            let from = DeviceColumn::Sources;
            let last = DeviceColumn::Seen;
            &&& ip.title_spec() == "IP"@ && ip.text_of(d, options, seen) == d.ip.text_spec()
            &&& interface.title_spec() == "Iface"@ && rows::shows_or_hyphen(
                interface.text_of(d, options, seen),
                d.interface,
            )
            &&& mac.title_spec() == "MAC"@ && rows::shows_or_hyphen(
                mac.text_of(d, options, seen),
                d.mac,
            )
            &&& vendor.title_spec() == "Vendor"@ && rows::shows_or_hyphen(
                vendor.text_of(d, options, seen),
                d.vendor,
            )
            &&& model.title_spec() == "Model"@ && rows::shows_guess_or_hyphen(
                model.text_of(d, options, seen),
                d.model,
            )
            &&& name.title_spec() == "Name"@ && rows::shows_or_hyphen(
                name.text_of(d, options, seen),
                d.hostname,
            )
            &&& os.title_spec() == "OS"@ && rows::shows_guess_or_hyphen(
                os.text_of(d, options, seen),
                d.os,
            )
            &&& sure.title_spec() == "Conf"@ && rows::shows_fraction(
                sure.text_of(d, options, seen),
                d.identity_confidence(),
            )
            &&& from.title_spec() == "Sources"@ && from.text_of(d, options, seen)
                == sources::codes_spec(sources::sources_spec(d))
            &&& last.title_spec() == "Seen"@ && last.text_of(d, options, seen) == seen
        }),
{
    reveal_strlit("-");
    assert("-"@ =~= seq!['-']);
    rows::law_identity_is_as_sure_as_its_strongest_sign(d);
    rows::lemma_fraction(d.identity_confidence());
}

/// Every column of the interface panel shows what its head names.
pub proof fn law_interface_cells_are_what_the_head_names(
    i: InterfaceInfoView,
    is_scanned: bool,
    is_default: bool,
)
    ensures
        ({
            let options = OutputOptions { mac: MacAddressDisplay::Full };
            let shown = |c: InterfaceColumn| c.text_of(i, options, is_scanned, is_default);
            &&& InterfaceColumn::Use.title_spec() == "Use"@
            &&& is_scanned ==> shown(InterfaceColumn::Use) == "scan"@
            &&& !is_scanned ==> shown(InterfaceColumn::Use) == seq!['-']
            &&& InterfaceColumn::Default.title_spec() == "Def"@
            &&& is_default ==> shown(InterfaceColumn::Default) == seq!['*']
            &&& !is_default ==> shown(InterfaceColumn::Default) == seq!['-']
            &&& InterfaceColumn::Name.title_spec() == "Name"@
            &&& shown(InterfaceColumn::Name) == i.name
            &&& InterfaceColumn::Ipv4.title_spec() == "IPv4"@
            &&& shown(InterfaceColumn::Ipv4) == i.ip.text_spec()
            &&& InterfaceColumn::Network.title_spec() == "Network"@
            &&& shown(InterfaceColumn::Network) == i.network.text_spec()
            &&& InterfaceColumn::Mac.title_spec() == "MAC"@
            &&& rows::shows_or_hyphen(shown(InterfaceColumn::Mac), i.mac)
        }),
{
    reveal_strlit("-");
    reveal_strlit("*");
    assert("-"@ =~= seq!['-']);
    assert("*"@ =~= seq!['*']);
}

/// A text of a device holds a word, whatever the case of its letters.
pub open spec fn mentions(value: Option<Seq<char>>, word: Seq<char>) -> bool {
    value is Some && text::contains_spec(text::unicode_lower_spec(value->0), word)
}

/// A search finds a device by its address, its MAC address, its vendor, its model, its
/// label, any of its names, and its system, and by nothing else; a blank search finds
/// every device.
pub proof fn law_search_finds_devices(d: DeviceView, query: Seq<char>)
    ensures
        ({
            let word = text::unicode_lower_spec(text::trim_spec(query));
            devices::search_matches(d, query) <==> word.len() == 0 || mentions(
                Some(d.ip.text_spec()),
                word,
            ) || mentions(d.mac, word) || mentions(d.vendor, word) || (d.model is Some && mentions(
                Some(d.model->0.value),
                word,
            )) || mentions(d.hostname, word) || (d.os is Some && mentions(
                Some(d.os->0.value),
                word,
            )) || (exists|i: int|
                0 <= i < d.names.len() && mentions(Some((#[trigger] d.names[i]).name), word))
        }),
{
    let word = text::unicode_lower_spec(text::trim_spec(query));
    let a = seq![d.ip.text_spec()];
    let b = a + devices::listed(d.mac);
    let c = b + devices::listed(d.vendor);
    let e = c + devices::listed(export::guess_value(d.model));
    let f = e + devices::listed(d.hostname);
    let n = devices::name_texts(d.names);
    let g = f + n;
    let h = g + devices::listed(export::guess_value(d.os));
    lemma_any_add(a, devices::listed(d.mac), word);
    lemma_any_add(b, devices::listed(d.vendor), word);
    lemma_any_add(c, devices::listed(export::guess_value(d.model)), word);
    lemma_any_add(e, devices::listed(d.hostname), word);
    lemma_any_add(f, n, word);
    lemma_any_add(g, devices::listed(export::guess_value(d.os)), word);
    lemma_any_one(d.ip.text_spec(), word);
    lemma_any_opt(d.mac, word);
    lemma_any_opt(d.vendor, word);
    lemma_any_opt(export::guess_value(d.model), word);
    lemma_any_opt(d.hostname, word);
    lemma_any_opt(export::guess_value(d.os), word);
    assert(any(n, word) <==> exists|i: int|
        0 <= i < d.names.len() && mentions(Some((#[trigger] d.names[i]).name), word)) by {
        if any(n, word) {
            let i = choose|i: int|
                0 <= i < n.len() && text::contains_spec(
                    text::unicode_lower_spec(#[trigger] n[i]),
                    word,
                );
            assert(mentions(Some(d.names[i].name), word));
        }
        if exists|i: int|
            0 <= i < d.names.len() && mentions(Some((#[trigger] d.names[i]).name), word) {
            let i = choose|i: int|
                0 <= i < d.names.len() && mentions(Some((#[trigger] d.names[i]).name), word);
            assert(n[i] == d.names[i].name);
        }
    }
    assert(h =~= devices::search_values(d));
}

/// One of several texts holds a word.
spec fn any(s: Seq<Seq<char>>, word: Seq<char>) -> bool {
    exists|i: int|
        0 <= i < s.len() && text::contains_spec(text::unicode_lower_spec(#[trigger] s[i]), word)
}

/// A word in two lists of texts.
proof fn lemma_any_add(a: Seq<Seq<char>>, b: Seq<Seq<char>>, word: Seq<char>)
    ensures
        any(a + b, word) <==> any(a, word) || any(b, word),
{
    let s = a + b;
    if any(a, word) {
        let i = choose|i: int|
            0 <= i < a.len() && text::contains_spec(text::unicode_lower_spec(#[trigger] a[i]), word);
        assert(s[i] == a[i]);
    }
    if any(b, word) {
        let i = choose|i: int|
            0 <= i < b.len() && text::contains_spec(text::unicode_lower_spec(#[trigger] b[i]), word);
        assert(s[a.len() + i] == b[i]);
    }
    if any(s, word) {
        let i = choose|i: int|
            0 <= i < s.len() && text::contains_spec(text::unicode_lower_spec(#[trigger] s[i]), word);
        if i < a.len() {
            assert(a[i] == s[i]);
        } else {
            assert(b[i - a.len()] == s[i]);
        }
    }
}

/// A word in one text.
proof fn lemma_any_one(v: Seq<char>, word: Seq<char>)
    ensures
        any(seq![v], word) <==> mentions(Some(v), word),
{
    assert(seq![v][0] == v);
}

/// A word in an optional text.
proof fn lemma_any_opt(v: Option<Seq<char>>, word: Seq<char>)
    ensures
        any(devices::listed(v), word) <==> mentions(v, word),
{
    if v is Some {
        lemma_any_one(v->0, word);
    }
}

/// The rows on show are those whose devices a search finds.
pub proof fn law_found_rows_are_shown(all: Seq<LiveRowView>, query: Seq<char>, row: LiveRowView)
    ensures
        table::visible(all, query).contains(row) <==> all.contains(row) && devices::search_matches(
            row.device,
            query,
        ),
    decreases all.len(),
{
    if all.len() > 0 {
        let front = all.drop_last();
        let before = table::visible(front, query);
        let after = table::visible(all, query);
        law_found_rows_are_shown(front, query, row);
        assert(all[all.len() - 1] == all.last());
        if front.contains(row) {
            let k = choose|k: int| 0 <= k < front.len() && front[k] == row;
            assert(all[k] == row);
        }
        if before.contains(row) {
            let k = choose|k: int| 0 <= k < before.len() && before[k] == row;
            assert(after[k] == row);
        }
        if all.contains(row) && row != all.last() {
            let k = choose|k: int| 0 <= k < all.len() && all[k] == row;
            assert(front[k] == row);
        }
        if row == all.last() && devices::search_matches(row.device, query) {
            assert(after[before.len() as int] == row);
        }
        if after.contains(row) && !before.contains(row) {
            let k = choose|k: int| 0 <= k < after.len() && after[k] == row;
            if k < before.len() {
                assert(before[k] == row);
            }
        }
    }
}

/// Only these parts of the table differ: the cursor and the search.
pub open spec fn only_steered(a: LiveTableView, b: LiveTableView) -> bool {
    b == (LiveTableView {
        selected: b.selected,
        scroll: b.scroll,
        search_query: b.search_query,
        search_editing: b.search_editing,
        ..a
    })
}

/// The cursor is so many rows further, as far as there are any.
pub open spec fn further(a: LiveTableView, b: LiveTableView, delta: int) -> bool {
    let n = a.shown().len() as int;
    let to = a.selected + delta;
    n > 0 ==> b.selected == (if to < 0 {
        0
    } else if to >= n {
        n - 1
    } else {
        to
    })
}

/// Keys do what they are for: control-c leaves; control-z pauses and escape resumes; a
/// slash opens the search; and the others move the cursor, by one row, by ten, or to an
/// end of the table.
pub proof fn law_keys_do_what_they_are_for(t: LiveTableView, key: KeyEvent, now: Timestamp)
    requires
        t.valid(),
        t.shown().len() <= usize::MAX,
    ensures
        ({
            let (after, action) = t.keyed(key, now);
            let control = key.modifiers.control;
            let steers = !t.search_editing;
            &&& action == LiveInputAction::Exit <==> control && key.code == KeyCode::Char('c')
            &&& action == LiveInputAction::Pause <==> steers && control && key.code == KeyCode::Char(
                'z',
            ) && !t.paused
            &&& action == LiveInputAction::Resume <==> steers && key.code == KeyCode::Esc
                && t.paused
            &&& action == LiveInputAction::Pause ==> after.paused && after.phase == "paused"@
            &&& action == LiveInputAction::Resume ==> !after.paused && after.phase == "resuming"@
            &&& action == LiveInputAction::Continue || action == LiveInputAction::Exit
                ==> only_steered(t, after)
            &&& steers && key.code == KeyCode::Char('/') ==> after.search_editing
                && after.search_query == t.search_query
            &&& steers && (key.code == KeyCode::Down || key.code == KeyCode::Char('j')) ==> further(
                t,
                after,
                1,
            )
            &&& steers && (key.code == KeyCode::Up || key.code == KeyCode::Char('k')) ==> further(
                t,
                after,
                -1,
            )
            &&& steers && (key.code == KeyCode::PageDown || (control && key.code == KeyCode::Char(
                'd',
            ))) ==> further(t, after, 10)
            &&& steers && (key.code == KeyCode::PageUp || (control && key.code == KeyCode::Char(
                'u',
            ))) ==> further(t, after, -10)
            &&& steers && key.code == KeyCode::Home ==> after.selected == 0
            &&& steers && key.code == KeyCode::End && t.shown().len() > 0 ==> after.selected
                == t.shown().len() - 1
        }),
{
}

/// While the search is edited, characters extend it, backspace takes the last one away,
/// enter keeps it, and escape gives it up.
pub proof fn law_search_line_is_edited(t: LiveTableView, key: KeyEvent, now: Timestamp, c: char)
    requires
        t.search_editing,
        !(key.modifiers.control && key.code == KeyCode::Char('c')),
    ensures
        ({
            let after = t.keyed(key, now).0;
            let plain = !key.modifiers.control && !key.modifiers.other;
            &&& key.code == KeyCode::Char(c) && plain ==> after.search_query
                == t.search_query + seq![c] && after.search_editing
            &&& key.code == KeyCode::Char(c) && !plain ==> after == t
            &&& key.code == KeyCode::Backspace && t.search_query.len() > 0 ==> after.search_query
                + seq![t.search_query.last()] == t.search_query && after.search_editing
            &&& key.code == KeyCode::Enter ==> after.search_query == t.search_query
                && !after.search_editing
            &&& key.code == KeyCode::Esc ==> after.search_query.len() == 0 && !after.search_editing
        }),
{
    assert(t.search_query.push(c) =~= t.search_query + seq![c]);
    if t.search_query.len() > 0 {
        assert(t.search_query.drop_last() + seq![t.search_query.last()] =~= t.search_query);
    }
}

/// Events of a scan show: what is scanned, with which profile, and in which phase; the
/// round; and warnings.
pub proof fn law_events_show(
    t: LiveTableView,
    target: Seq<char>,
    interface: Seq<char>,
    profile: ScanProfile,
    round: u64,
    words: Seq<char>,
    now: Timestamp,
    seen: Seq<char>,
)
    ensures
        ({
            let a = t.applied(ScanEventView::Started { target, interface, profile }, now, seen);
            &&& a.target == Some(target)
            &&& a.interface == Some(interface)
            &&& a.profile == Some(profile.text_spec())
            &&& a.phase == "starting"@
            &&& a.rows == t.rows && a.finished == t.finished
        }),
        ({
            let a = t.applied(ScanEventView::RoundStarted { round }, now, seen);
            &&& a.current_round == Some(round)
            &&& a.rows == t.rows
        }),
        t.applied(ScanEventView::Phase(words), now, seen) == (LiveTableView { phase: words, ..t }),
        ({
            let a = t.applied(ScanEventView::Warning(words), now, seen);
            &&& a.warnings.contains(words)
            &&& t.warnings.is_prefix_of(a.warnings)
            &&& a.rows == t.rows && a.phase == t.phase
        }),
{
    let w = t.applied(ScanEventView::Warning(words), now, seen);
    if !t.warnings.contains(words) {
        assert(w.warnings[t.warnings.len() as int] == words);
    }
}

/// At the end of a scan the table shows that it is over, the warnings, and a row of each
/// device that was found, under its own key.
pub proof fn law_end_of_scan_shows(
    t: LiveTableView,
    found: Seq<DeviceView>,
    warnings: Seq<Seq<char>>,
    now: Timestamp,
    seen: Seq<char>,
    row: LiveRowView,
)
    ensures
        ({
            let a = t.applied(ScanEventView::Finished { devices: found, warnings }, now, seen);
            &&& a.finished
            &&& a.phase == "complete"@
            &&& a.warnings == warnings
            &&& a.rows.contains(row) ==> found.contains(row.device) && row.round
                == t.current_round && row.key == devices::key_of(row.device)
        }),
{
    let start = LiveTableView { rows: table::rows_of(found, t.current_round), ..t };
    lemma_told_of(start, warnings, now);
    lemma_rows_of(found, t.current_round, row);
    let told = start.told_of(warnings, now);
    assert(told.rows == start.rows);
}

/// Warnings are told in the log alone.
proof fn lemma_told_of(t: LiveTableView, warnings: Seq<Seq<char>>, now: Timestamp)
    ensures
        t.told_of(warnings, now) == (LiveTableView { logs: t.told_of(warnings, now).logs, ..t }),
    decreases warnings.len(),
{
    if warnings.len() > 0 {
        lemma_told_of(t, warnings.drop_last(), now);
    }
}

/// A row of a table with one more row is that row, or was there before.
proof fn lemma_with_row(before: Seq<LiveRowView>, new: LiveRowView, row: LiveRowView)
    requires
        table::with_row(before, new).contains(row),
        row != new,
    ensures
        before.contains(row),
{
    let after = table::with_row(before, new);
    let i = choose|i: int| 0 <= i < after.len() && after[i] == row;
    let k = table::row_place(before, new.key);
    table::lemma_row_place(before, new.key);
    if k < before.len() {
        assert(before[i] == row);
    } else {
        sort::lemma_insert_members::<LiveRow, RowOrder>(before, new, row);
    }
}

/// Rows are of devices.
proof fn lemma_rows_of(found: Seq<DeviceView>, round: Option<u64>, row: LiveRowView)
    ensures
        table::rows_of(found, round).contains(row) ==> found.contains(row.device) && row.round
            == round && row.key == devices::key_of(row.device),
    decreases found.len(),
{
    if found.len() > 0 {
        let front = found.drop_last();
        let d = found.last();
        let new = LiveRowView { key: devices::key_of(d), device: d, round };
        lemma_rows_of(front, round, row);
        let before = table::rows_of(front, round);
        let after = table::rows_of(found, round);
        assert(found[found.len() - 1] == d);
        if after.contains(row) && row != new {
            lemma_with_row(before, new, row);
            let k = choose|k: int| 0 <= k < front.len() && front[k] == row.device;
            assert(found[k] == row.device);
        }
    }
}

} // verus!
