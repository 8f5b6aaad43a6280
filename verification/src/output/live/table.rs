//! The state of the live view, and how scan events and keys change it.

use crate::model::{Device, DeviceView, Timestamp};
use crate::output::live::devices::{
    device_log_summary, device_mac_changed, device_matches_search, live_identity_signature,
    merge_live_device, DeviceKey, DeviceKeyView,
};
use crate::output::live::devices;
use crate::output::live::interfaces::{
    LiveInterfacePanel, LiveInterfacePanelView, INTERFACE_PANEL_VISIBLE_ROWS,
};
use crate::output::live::layout::corrected_table_offset;
use crate::output::live::layout;
use crate::output::live::logs::{
    LiveLogEntry, LiveLogEntryView, LiveLogLevel, TextSpan, TextSpanView, Tone,
};
use crate::output::live::logs;
use crate::output::privacy::OutputOptions;
use crate::scanner::passive;
use crate::scanner::types::{ScanEvent, ScanEventView, ScanProfile};
use crate::sort::{insert, SortOrder};
use crate::sort;
use crate::store;
use crate::text::{chars, concat, concat3, decimal, is_text, owned, split_char, str_eq, text, trim};
use crate::text;
use vstd::prelude::*;

verus! {

/// The most lines that the live log keeps. It is a moving trace, not history storage:
/// the bound keeps memory flat on long-running scans.
pub const MAX_LIVE_LOG_LINES: usize = 200;

/// A row of the device table. `round` is the round in which the device was last reported.
#[derive(Debug, PartialEq, Eq)]
pub struct LiveRow {
    pub key: DeviceKey,
    pub device: Device,
    pub round: Option<u64>,
}

/// The mathematical content of a [`LiveRow`].
#[verifier::ext_equal]
pub struct LiveRowView {
    pub key: DeviceKeyView,
    pub device: DeviceView,
    pub round: Option<u64>,
}

impl View for LiveRow {
    type V = LiveRowView;

    open spec fn view(&self) -> LiveRowView {
        LiveRowView {
            key: self.key@,
            device: self.device@,
            round: self.round,
        }
    }
}

impl DeepView for LiveRow {
    type V = LiveRowView;

    open spec fn deep_view(&self) -> LiveRowView {
        self@
    }
}

impl Clone for LiveRow {
    fn clone(&self) -> (r: Self)
        ensures
            r@ == self@,
    {
        let r = LiveRow {
            key: self.key.clone(),
            device: self.device.clone(),
            round: self.round,
        };
        r
    }
}

/// The state of the live view.
#[derive(Debug, PartialEq, Eq)]
pub struct LiveTable {
    pub target: Option<String>,
    pub interface: Option<String>,
    pub profile: Option<String>,
    pub phase: String,
    pub rows: Vec<LiveRow>,
    pub current_round: Option<u64>,
    pub warnings: Vec<String>,
    pub logs: Vec<LiveLogEntry>,
    pub finished: bool,
    pub paused: bool,
    pub selected: usize,
    pub scroll: usize,
    pub search_query: String,
    pub search_editing: bool,
    pub options: OutputOptions,
    pub interface_panel: LiveInterfacePanel,
}

/// The mathematical content of a [`LiveTable`].
#[verifier::ext_equal]
pub struct LiveTableView {
    pub target: Option<Seq<char>>,
    pub interface: Option<Seq<char>>,
    pub profile: Option<Seq<char>>,
    pub phase: Seq<char>,
    pub rows: Seq<LiveRowView>,
    pub current_round: Option<u64>,
    pub warnings: Seq<Seq<char>>,
    pub logs: Seq<LiveLogEntryView>,
    pub finished: bool,
    pub paused: bool,
    pub selected: usize,
    pub scroll: usize,
    pub search_query: Seq<char>,
    pub search_editing: bool,
    pub options: OutputOptions,
    pub interface_panel: LiveInterfacePanelView,
}

impl View for LiveTable {
    type V = LiveTableView;

    open spec fn view(&self) -> LiveTableView {
        LiveTableView {
            target: self.target.deep_view(),
            interface: self.interface.deep_view(),
            profile: self.profile.deep_view(),
            phase: self.phase@,
            rows: self.rows.deep_view(),
            current_round: self.current_round,
            warnings: self.warnings.deep_view(),
            logs: self.logs.deep_view(),
            finished: self.finished,
            paused: self.paused,
            selected: self.selected,
            scroll: self.scroll,
            search_query: self.search_query@,
            search_editing: self.search_editing,
            options: self.options,
            interface_panel: self.interface_panel@,
        }
    }
}

impl DeepView for LiveTable {
    type V = LiveTableView;

    open spec fn deep_view(&self) -> LiveTableView {
        self@
    }
}

/// A key of the keyboard.
#[derive(Clone, Copy, Debug, PartialEq, Eq, Structural)]
pub enum KeyCode {
    Char(char),
    Esc,
    Enter,
    Backspace,
    Up,
    Down,
    PageUp,
    PageDown,
    Home,
    End,
    Other,
}

/// The keys held down with another.
#[derive(Clone, Copy, Debug, PartialEq, Eq, Structural)]
pub struct KeyModifiers {
    pub control: bool,
    pub shift: bool,
    /// Any other one.
    pub other: bool,
}

/// A key that was pressed.
#[derive(Clone, Copy, Debug, PartialEq, Eq, Structural)]
pub struct KeyEvent {
    pub code: KeyCode,
    pub modifiers: KeyModifiers,
}

/// What a key asks of the program.
#[derive(Clone, Copy, Debug, PartialEq, Eq, Structural)]
pub enum LiveInputAction {
    Continue,
    Exit,
    Pause,
    Resume,
}

/// How the live view ended.
#[derive(Clone, Copy, Debug, PartialEq, Eq, Structural)]
pub enum LiveOutcome {
    Completed,
    Cancelled,
}

impl LiveOutcome {
    /// Reports whether the view was left before the scan was over.
    pub fn is_cancelled(self) -> (r: bool)
        ensures
            r == (self == LiveOutcome::Cancelled),
    {
        matches!(self, LiveOutcome::Cancelled)
    }
}

/// Rows by interface and address.
pub struct RowOrder {}

impl SortOrder<LiveRow> for RowOrder {
    open spec fn before(a: LiveRowView, b: LiveRowView) -> bool {
        devices::key_less(a.key, b.key)
    }

    fn comes_before(a: &LiveRow, b: &LiveRow) -> (r: bool) {
        a.key.before(&b.key)
    }

    proof fn asymmetric(a: LiveRowView, b: LiveRowView) {
        crate::output::live::devices::lemma_key_total(a.key, b.key);
    }

    proof fn transitive(a: LiveRowView, b: LiveRowView, c: LiveRowView) {
        crate::output::live::devices::lemma_key_total(a.key, b.key);
        crate::output::live::devices::lemma_key_total(b.key, c.key);
        crate::output::live::devices::lemma_key_total(a.key, c.key);
        if a.key != b.key && b.key != c.key {
            crate::output::live::devices::lemma_key_transitive(a.key, b.key, c.key);
        }
    }
}

/// The rows stand by rising key, one for each.
pub open spec fn by_key(rows: Seq<LiveRowView>) -> bool {
    forall|i: int, j: int|
        0 <= i < j < rows.len() ==> devices::key_less((#[trigger] rows[i]).key, (#[trigger] rows[j]).key)
}

/// The position of the row with a key, or the length when there is none.
pub open spec fn row_place(rows: Seq<LiveRowView>, key: DeviceKeyView) -> int
    decreases rows.len(),
{
    if rows.len() == 0 || rows[0].key == key {
        0
    } else {
        1 + row_place(rows.drop_first(), key)
    }
}

/// What [`row_place`] finds.
pub proof fn lemma_row_place(rows: Seq<LiveRowView>, key: DeviceKeyView)
    ensures
        0 <= row_place(rows, key) <= rows.len(),
        row_place(rows, key) < rows.len() ==> rows[row_place(rows, key)].key == key,
        forall|i: int| 0 <= i < row_place(rows, key) ==> (#[trigger] rows[i]).key != key,
    decreases rows.len(),
{
    if rows.len() > 0 && rows[0].key != key {
        let rest = rows.drop_first();
        lemma_row_place(rest, key);
        assert forall|i: int| 0 <= i < row_place(rows, key) implies (#[trigger] rows[i]).key
            != key by {
            if i > 0 {
                assert(rest[i - 1] == rows[i]);
            }
        }
    }
}

/// The rows with one of them set: in the place of the row with its key, or inserted in
/// order.
pub open spec fn with_row(rows: Seq<LiveRowView>, row: LiveRowView) -> Seq<LiveRowView> {
    let k = row_place(rows, row.key);
    if k < rows.len() {
        rows.update(k, row)
    } else {
        sort::insert_spec::<LiveRow, RowOrder>(rows, row)
    }
}

/// Setting a row keeps the order.
proof fn lemma_with_row(rows: Seq<LiveRowView>, row: LiveRowView)
    requires
        by_key(rows),
    ensures
        by_key(with_row(rows, row)),
        with_row(rows, row).contains(row),
{
    lemma_row_place(rows, row.key);
    let k = row_place(rows, row.key);
    let r = with_row(rows, row);
    if k < rows.len() {
        assert forall|i: int, j: int| 0 <= i < j < r.len() implies devices::key_less(
            (#[trigger] r[i]).key,
            (#[trigger] r[j]).key,
        ) by {
            assert(devices::key_less(rows[i].key, rows[j].key));
        }
        assert(r[k] == row);
    } else {
        lemma_insert_row(rows, row);
    }
}

/// Inserting a row with a new key keeps the order.
proof fn lemma_insert_row(rows: Seq<LiveRowView>, row: LiveRowView)
    requires
        by_key(rows),
        forall|i: int| 0 <= i < rows.len() ==> (#[trigger] rows[i]).key != row.key,
    ensures
        by_key(sort::insert_spec::<LiveRow, RowOrder>(rows, row)),
        sort::insert_spec::<LiveRow, RowOrder>(rows, row).contains(row),
        forall|x: LiveRowView|
            sort::insert_spec::<LiveRow, RowOrder>(rows, row).contains(x) ==> x == row
                || rows.contains(x),
    decreases rows.len(),
{
    let r = sort::insert_spec::<LiveRow, RowOrder>(rows, row);
    if rows.len() == 0 || !devices::key_less(row.key, rows.last().key) {
        assert(r =~= rows.push(row));
        assert(r[rows.len() as int] == row);
        assert forall|i: int, j: int| 0 <= i < j < r.len() implies devices::key_less(
            (#[trigger] r[i]).key,
            (#[trigger] r[j]).key,
        ) by {
            if j == rows.len() {
                let last = rows[rows.len() - 1];
                assert(last.key != row.key);
                crate::output::live::devices::lemma_key_total(row.key, last.key);
                if i < rows.len() - 1 {
                    assert(devices::key_less(rows[i].key, last.key));
                    crate::output::live::devices::lemma_key_transitive(
                        rows[i].key,
                        last.key,
                        row.key,
                    );
                }
            } else {
                assert(devices::key_less(rows[i].key, rows[j].key));
            }
        }
        assert forall|x: LiveRowView| r.contains(x) implies x == row || rows.contains(x) by {
            let i = choose|i: int| 0 <= i < r.len() && r[i] == x;
            if i < rows.len() {
                assert(rows[i] == x);
            }
        }
    } else {
        let front = rows.drop_last();
        let last = rows.last();
        let inner = sort::insert_spec::<LiveRow, RowOrder>(front, row);
        assert forall|i: int, j: int| 0 <= i < j < front.len() implies devices::key_less(
            (#[trigger] front[i]).key,
            (#[trigger] front[j]).key,
        ) by {
            assert(devices::key_less(rows[i].key, rows[j].key));
        }
        assert forall|i: int| 0 <= i < front.len() implies (#[trigger] front[i]).key
            != row.key by {
            assert(rows[i].key != row.key);
        }
        lemma_insert_row(front, row);
        assert(r =~= inner.push(last));
        let m = choose|m: int| 0 <= m < inner.len() && inner[m] == row;
        assert(r[m] == row);
        assert forall|i: int, j: int| 0 <= i < j < r.len() implies devices::key_less(
            (#[trigger] r[i]).key,
            (#[trigger] r[j]).key,
        ) by {
            if j < inner.len() {
                assert(devices::key_less(inner[i].key, inner[j].key));
            } else {
                let x = inner[i];
                assert(inner.contains(x));
                if x != row {
                    assert(front.contains(x));
                    let n = choose|n: int| 0 <= n < front.len() && front[n] == x;
                    assert(devices::key_less(rows[n].key, rows[rows.len() - 1].key));
                }
            }
        }
        assert forall|x: LiveRowView| r.contains(x) implies x == row || rows.contains(x) by {
            let i = choose|i: int| 0 <= i < r.len() && r[i] == x;
            if i < inner.len() {
                assert(inner[i] == x);
                assert(inner.contains(x));
                if x != row {
                    assert(front.contains(x));
                    let n = choose|n: int| 0 <= n < front.len() && front[n] == x;
                    assert(rows[n] == x);
                }
            } else {
                assert(rows[rows.len() - 1] == x);
            }
        }
    }
}

/// The rows that a search shows.
pub open spec fn visible(rows: Seq<LiveRowView>, query: Seq<char>) -> Seq<LiveRowView>
    decreases rows.len(),
{
    if rows.len() == 0 {
        seq![]
    } else if devices::search_matches(rows.last().device, query) {
        visible(rows.drop_last(), query).push(rows.last())
    } else {
        visible(rows.drop_last(), query)
    }
}

/// A row for each device; of devices with the same key the last one counts.
pub open spec fn rows_of(devices: Seq<DeviceView>, round: Option<u64>) -> Seq<LiveRowView>
    decreases devices.len(),
{
    if devices.len() == 0 {
        seq![]
    } else {
        let d = devices.last();
        with_row(
            rows_of(devices.drop_last(), round),
            LiveRowView { key: devices::key_of(d), device: d, round },
        )
    }
}

/// The log with a line appended; the oldest ones leave where there would be too many.
pub open spec fn logged(logs: Seq<LiveLogEntryView>, entry: LiveLogEntryView) -> Seq<
    LiveLogEntryView,
> {
    if logs.len() >= MAX_LIVE_LOG_LINES {
        logs.skip(logs.len() - (MAX_LIVE_LOG_LINES - 1)).push(entry)
    } else {
        logs.push(entry)
    }
}

/// The interfaces with those of a summary noted.
pub open spec fn noted(all: Seq<Seq<char>>, names: Seq<Seq<char>>) -> Seq<Seq<char>>
    decreases names.len(),
{
    if names.len() == 0 {
        all
    } else {
        let front = noted(all, names.drop_last());
        let name = text::trim_spec(names.last());
        if name.len() == 0 || name == "default"@ || front.contains(name) {
            front
        } else {
            front.push(name)
        }
    }
}

/// A row after its device was reported again. A device whose MAC address changed is
/// another device, and takes the place of the old one.
pub open spec fn refreshed(row: LiveRowView, d: DeviceView, round: Option<u64>) -> LiveRowView {
    LiveRowView {
        key: row.key,
        device: if store::mac_conflict(row.device, d) {
            d
        } else {
            passive::snapshot_merged(row.device, d)
        },
        round: match round {
            Some(round) => Some(round),
            None => row.round,
        },
    }
}

impl LiveTableView {
    /// The table with a line in its log.
    pub open spec fn log(self, now: Timestamp, level: LiveLogLevel, message: Seq<char>) -> Self {
        LiveTableView {
            logs: logged(self.logs, LiveLogEntryView { timestamp: now, level, message }),
            ..self
        }
    }

    /// The rows on show.
    pub open spec fn shown(self) -> Seq<LiveRowView> {
        visible(self.rows, self.search_query)
    }

    /// The table with its cursor on a row that is on show.
    pub open spec fn clamped(self) -> Self {
        let n = self.shown().len();
        if n == 0 {
            LiveTableView { selected: 0, scroll: 0, ..self }
        } else {
            LiveTableView {
                selected: if self.selected < n {
                    self.selected
                } else {
                    (n - 1) as usize
                },
                scroll: if self.scroll < n {
                    self.scroll
                } else {
                    (n - 1) as usize
                },
                ..self
            }
        }
    }

    /// The table with its cursor on the row with a key, where that is on show.
    pub open spec fn with_cursor_on(self, key: DeviceKeyView) -> Self {
        let k = row_place(self.shown(), key);
        if k < self.shown().len() {
            LiveTableView { selected: k as usize, ..self }
        } else {
            self
        }
    }

    /// The table with its cursor on a row by number.
    pub open spec fn with_index(self, index: int) -> Self {
        let n = self.shown().len();
        if n == 0 {
            LiveTableView { selected: 0, scroll: 0, ..self }
        } else {
            LiveTableView {
                selected: if index < n {
                    index as usize
                } else {
                    (n - 1) as usize
                },
                ..self
            }.clamped()
        }
    }

    /// The table with its cursor moved by so many rows, as far as there are any.
    pub open spec fn moved(self, delta: int) -> Self {
        let n = self.shown().len();
        let current = if self.selected < n {
            self.selected as int
        } else {
            n - 1
        };
        let next = if current + delta < 0 {
            0
        } else {
            current + delta
        };
        self.with_index(
            if next < n {
                next
            } else {
                n - 1
            },
        )
    }

    /// The table with its cursor at the top.
    pub open spec fn at_top(self) -> Self {
        LiveTableView { selected: 0, scroll: 0, ..self }.clamped()
    }

    /// The table without a search.
    pub open spec fn without_search(self) -> Self {
        LiveTableView { search_query: seq![], search_editing: false, ..self }.at_top()
    }

    /// A search is on.
    pub open spec fn filters(self) -> bool {
        text::trim_spec(self.search_query).len() > 0
    }

    /// The table with a warning, unless it is known.
    pub open spec fn warned(self, now: Timestamp, warning: Seq<char>) -> Self {
        if self.warnings.contains(warning) {
            self
        } else {
            let logged = self.log(now, LiveLogLevel::Warning, "warning "@ + warning);
            LiveTableView { warnings: self.warnings.push(warning), ..logged }
        }
    }

    /// The time at which a device will have been last seen once it is in the table.
    pub open spec fn seen_after_spec(self, d: DeviceView) -> Timestamp {
        let k = row_place(self.rows, devices::key_of(d));
        if k < self.rows.len() {
            refreshed(self.rows[k], d, self.current_round).device.last_seen
        } else {
            d.last_seen
        }
    }

    /// The rows after a device was reported.
    pub open spec fn rows_with(self, d: DeviceView) -> Seq<LiveRowView> {
        let k = row_place(self.rows, devices::key_of(d));
        if k < self.rows.len() {
            self.rows.update(k, refreshed(self.rows[k], d, self.current_round))
        } else {
            with_row(
                self.rows,
                LiveRowView { key: devices::key_of(d), device: d, round: self.current_round },
            )
        }
    }

    /// What the log says of a device that was reported: nothing where its identity did
    /// not change.
    pub open spec fn report_of(self, d: DeviceView, seen: Seq<char>) -> Option<Seq<char>> {
        let k = row_place(self.rows, devices::key_of(d));
        if k < self.rows.len() {
            let after = refreshed(self.rows[k], d, self.current_round).device;
            if store::mac_conflict(self.rows[k].device, d) {
                Some("device replaced "@ + devices::summary_spec(d, self.options, seen))
            } else if devices::signature_spec(self.rows[k].device) != devices::signature_spec(after) {
                Some("device updated "@ + devices::summary_spec(after, self.options, seen))
            } else {
                None
            }
        } else {
            Some("device discovered "@ + devices::summary_spec(d, self.options, seen))
        }
    }

    /// The table after a device was reported. The cursor follows the device, unless
    /// the scan is paused.
    pub open spec fn device_updated(self, d: DeviceView, now: Timestamp, seen: Seq<char>) -> Self {
        let stored = LiveTableView { rows: self.rows_with(d), ..self };
        let told = match self.report_of(d, seen) {
            Some(message) => stored.log(now, LiveLogLevel::Device, message),
            None => stored,
        };
        if self.paused {
            told.clamped()
        } else {
            told.with_cursor_on(devices::key_of(d)).clamped()
        }
    }

    /// The table with a log line for each warning that is not known.
    pub open spec fn told_of(self, warnings: Seq<Seq<char>>, now: Timestamp) -> Self
        decreases warnings.len(),
    {
        if warnings.len() == 0 {
            self
        } else {
            let front = self.told_of(warnings.drop_last(), now);
            if self.warnings.contains(warnings.last()) {
                front
            } else {
                front.log(now, LiveLogLevel::Warning, "warning "@ + warnings.last())
            }
        }
    }

    /// The table after the scan began.
    pub open spec fn started(
        self,
        target: Seq<char>,
        interface: Seq<char>,
        profile: ScanProfile,
        now: Timestamp,
    ) -> Self {
        LiveTableView {
            target: Some(target),
            interface: Some(interface),
            profile: Some(profile.text_spec()),
            interface_panel: LiveInterfacePanelView {
                scan_interfaces: noted(
                    self.interface_panel.scan_interfaces,
                    text::split_char_spec(interface, ','),
                ),
                ..self.interface_panel
            },
            phase: "starting"@,
            ..self
        }.log(
            now,
            LiveLogLevel::Info,
            "scan started target="@ + target + " iface="@ + interface + (" profile="@
                + profile.text_spec()),
        )
    }

    /// The table after the scan was over.
    pub open spec fn completed(
        self,
        devices: Seq<DeviceView>,
        warnings: Seq<Seq<char>>,
        now: Timestamp,
    ) -> Self {
        let rows = rows_of(devices, self.current_round);
        let told = LiveTableView { rows, ..self }.told_of(warnings, now);
        LiveTableView { warnings, phase: "complete"@, finished: true, ..told }.clamped().log(
            now,
            LiveLogLevel::Info,
            "scan complete devices="@ + text::decimal_spec(rows.len()) + (" warnings="@ + text::decimal_spec(
                warnings.len(),
            )),
        )
    }

    /// The table after a scan event. `seen` is the local clock time of
    /// [`LiveTableView::seen_after_spec`].
    pub open spec fn applied(self, event: ScanEventView, now: Timestamp, seen: Seq<char>) -> Self {
        match event {
            ScanEventView::Started { target, interface, profile } => self.started(
                target,
                interface,
                profile,
                now,
            ),
            ScanEventView::RoundStarted { round } => LiveTableView {
                current_round: Some(round),
                phase: "scan round "@ + text::decimal_spec(round as nat),
                ..self
            },
            ScanEventView::RoundFinished { round } => self,
            ScanEventView::Phase(phase) => LiveTableView { phase, ..self },
            ScanEventView::DeviceUpdated(device) => self.device_updated(device, now, seen),
            ScanEventView::Warning(warning) => self.warned(now, warning),
            ScanEventView::Finished { devices, warnings } => self.completed(
                devices,
                warnings,
                now,
            ),
        }
    }

    /// The table after a key of the search line.
    pub open spec fn search_keyed(self, key: KeyEvent) -> Self {
        match key.code {
            KeyCode::Esc => self.without_search(),
            KeyCode::Enter => LiveTableView { search_editing: false, ..self },
            KeyCode::Backspace => LiveTableView {
                search_query: if self.search_query.len() == 0 {
                    self.search_query
                } else {
                    self.search_query.drop_last()
                },
                ..self
            }.at_top(),
            KeyCode::Char(c) => if key.modifiers.control || key.modifiers.other {
                self
            } else {
                LiveTableView { search_query: self.search_query.push(c), ..self }.at_top()
            },
            _ => self,
        }
    }

    /// The table after a key, and what the key asks of the program.
    pub open spec fn keyed(self, key: KeyEvent, now: Timestamp) -> (Self, LiveInputAction) {
        let control = key.modifiers.control;
        if control && key.code == KeyCode::Char('c') {
            (self, LiveInputAction::Exit)
        } else if self.search_editing {
            (self.search_keyed(key), LiveInputAction::Continue)
        } else if control && key.code == KeyCode::Char('z') {
            if self.paused {
                (self, LiveInputAction::Continue)
            } else {
                (
                    LiveTableView { paused: true, phase: "paused"@, ..self }.log(
                        now,
                        LiveLogLevel::Info,
                        "scan paused"@,
                    ),
                    LiveInputAction::Pause,
                )
            }
        } else if key.code == KeyCode::Esc && self.paused {
            (
                LiveTableView { paused: false, phase: "resuming"@, ..self }.log(
                    now,
                    LiveLogLevel::Info,
                    "scan resumed"@,
                ),
                LiveInputAction::Resume,
            )
        } else {
            (self.steered(key), LiveInputAction::Continue)
        }
    }

    /// The table after a key that moves the cursor or opens or clears the search.
    pub open spec fn steered(self, key: KeyEvent) -> Self {
        let control = key.modifiers.control;
        match key.code {
            KeyCode::Char(c) => if c == '/' {
                LiveTableView { search_editing: true, ..self }
            } else if c == 'j' {
                self.moved(1)
            } else if c == 'k' {
                self.moved(-1)
            } else if c == 'd' && control {
                self.moved(10)
            } else if c == 'u' && control {
                self.moved(-10)
            } else {
                self
            },
            KeyCode::Esc => if self.filters() {
                self.without_search()
            } else {
                self
            },
            KeyCode::Down => self.moved(1),
            KeyCode::Up => self.moved(-1),
            KeyCode::PageDown => self.moved(10),
            KeyCode::PageUp => self.moved(-10),
            KeyCode::Home => self.with_index(0),
            KeyCode::End => self.with_index(
                if self.shown().len() == 0 {
                    0
                } else {
                    self.shown().len() - 1
                },
            ),
            _ => self,
        }
    }

    /// The rows are in order, the log is bounded, and the cursor is on a row that is on
    /// show.
    pub open spec fn valid(self) -> bool {
        &&& by_key(self.rows)
        &&& self.logs.len() <= MAX_LIVE_LOG_LINES
        &&& self.shown().len() == 0 ==> self.selected == 0 && self.scroll == 0
        &&& self.shown().len() > 0 ==> self.selected < self.shown().len() && self.scroll
            < self.shown().len()
    }
}

impl LiveTable {
    /// The state before the first event.
    pub fn new(options: OutputOptions, interface_panel: LiveInterfacePanel) -> (r: Self)
        ensures
            r@ == (LiveTableView {
                target: None,
                interface: None,
                profile: None,
                phase: "starting"@,
                rows: seq![],
                current_round: None,
                warnings: seq![],
                logs: seq![],
                finished: false,
                paused: false,
                selected: 0,
                scroll: 0,
                search_query: seq![],
                search_editing: false,
                options,
                interface_panel: interface_panel@,
            }),
            r@.valid(),
    {
        let r = LiveTable {
            target: None,
            interface: None,
            profile: None,
            phase: owned("starting"),
            rows: Vec::new(),
            current_round: None,
            warnings: Vec::new(),
            logs: Vec::new(),
            finished: false,
            paused: false,
            selected: 0,
            scroll: 0,
            search_query: String::new(),
            search_editing: false,
            options,
            interface_panel,
        };
        proof {
            assert(r.rows.deep_view() =~= seq![]);
            assert(r.warnings.deep_view() =~= seq![]);
            assert(r.logs.deep_view() =~= seq![]);
            assert(r.search_query@ =~= seq![]);
        }
        r
    }

    /// Appends a line to the log.
    pub fn push_log(&mut self, now: Timestamp, level: LiveLogLevel, message: &str)
        ensures
            final(self)@ == old(self)@.log(now, level, message@),
    {
        let ghost before = self@;
        while self.logs.len() >= MAX_LIVE_LOG_LINES
            invariant
                self@ == (LiveTableView { logs: self.logs.deep_view(), ..before }),
                before.logs.len() >= self.logs@.len(),
                before.logs.len() < MAX_LIVE_LOG_LINES ==> self.logs@.len() == before.logs.len(),
                before.logs.len() >= MAX_LIVE_LOG_LINES ==> self.logs@.len() >= MAX_LIVE_LOG_LINES
                    - 1,
                self.logs.deep_view() == before.logs.skip(before.logs.len() - self.logs@.len()),
            decreases self.logs@.len(),
        {
            let ghost held = self.logs.deep_view();
            self.logs.remove(0);
            proof {
                assert(self.logs.deep_view() =~= held.skip(1));
                assert(held.skip(1) =~= before.logs.skip(
                    before.logs.len() - self.logs@.len(),
                ));
            }
        }
        let ghost kept = self.logs.deep_view();
        self.logs.push(LiveLogEntry { timestamp: now, level, message: owned(message) });
        proof {
            let entry = LiveLogEntryView { timestamp: now, level, message: message@ };
            assert(self.logs.deep_view() =~= kept.push(entry));
            assert(self.logs.deep_view() =~= logged(before.logs, entry));
        }
    }

    /// Lists the rows on show.
    pub fn visible_device_entries(&self) -> (r: Vec<&LiveRow>)
        ensures
            row_views(r@) == self@.shown(),
    {
        let ghost views = self.rows.deep_view();
        let mut out: Vec<&LiveRow> = Vec::new();
        let mut i: usize = 0;
        proof {
            assert(row_views(out@) =~= visible(views.take(0), self@.search_query));
        }
        while i < self.rows.len()
            invariant
                i <= self.rows@.len(),
                views == self.rows.deep_view(),
                row_views(out@) == visible(views.take(i as int), self@.search_query),
            decreases self.rows@.len() - i,
        {
            let ghost before = row_views(out@);
            proof {
                assert(views.take(i + 1).drop_last() =~= views.take(i as int));
                assert(views.take(i + 1).last() == self.rows@[i as int]@);
            }
            if device_matches_search(&self.rows[i].device, self.search_query.as_str()) {
                out.push(&self.rows[i]);
                proof {
                    assert(row_views(out@) =~= before.push(views[i as int]));
                }
            }
            i = i + 1;
        }
        proof {
            assert(views.take(i as int) =~= views);
        }
        out
    }

    /// Counts the rows on show.
    pub fn visible_device_count(&self) -> (r: usize)
        ensures
            r == self@.shown().len(),
    {
        let entries = self.visible_device_entries();
        proof {
            assert(row_views(entries@).len() == entries@.len());
        }
        entries.len()
    }

    /// Puts the cursor on a row that is on show.
    fn clamp_selection(&mut self)
        ensures
            final(self)@ == old(self)@.clamped(),
    {
        let total: usize = self.visible_device_count();
        if total == 0 {
            self.selected = 0;
            self.scroll = 0;
        } else {
            if self.selected >= total {
                self.selected = total - 1;
            }
            if self.scroll >= total {
                self.scroll = total - 1;
            }
        }
    }

    /// Puts the cursor on the row with a key. The cursor acts as a live update marker:
    /// every fresh device event moves it to the row that just changed.
    fn select_device(&mut self, key: &DeviceKey)
        ensures
            final(self)@ == old(self)@.with_cursor_on(key@),
    {
        let mut place: Option<usize> = None;
        {
            let entries = self.visible_device_entries();
            let ghost views = row_views(entries@);
            let mut i: usize = 0;
            proof {
                assert(views.skip(0) =~= views);
            }
            while i < entries.len() && place.is_none()
                invariant
                    i <= entries@.len(),
                    views == row_views(entries@),
                    place is None ==> row_place(views, key@) == i + row_place(
                        views.skip(i as int),
                        key@,
                    ),
                    place matches Some(k) ==> k == row_place(views, key@) && k < views.len(),
                decreases entries@.len() - i, (if place is None {
                    1int
                } else {
                    0int
                }),
            {
                proof {
                    assert(views.skip(i as int)[0] == entries@[i as int]@);
                    assert(views.skip(i as int).drop_first() =~= views.skip(i + 1));
                }
                if entries[i].key.same(key) {
                    place = Some(i);
                } else {
                    i = i + 1;
                }
            }
        }
        if let Some(k) = place {
            self.selected = k;
        }
    }

    /// Puts the cursor on a row by number.
    fn select_index(&mut self, index: usize)
        ensures
            final(self)@ == old(self)@.with_index(index as int),
    {
        let total: usize = self.visible_device_count();
        if total == 0 {
            self.selected = 0;
            self.scroll = 0;
            return ;
        }
        self.selected = if index < total {
            index
        } else {
            total - 1
        };
        self.clamp_selection();
    }

    /// Moves the cursor down.
    fn move_down(&mut self, rows: usize)
        ensures
            final(self)@ == old(self)@.moved(rows as int),
    {
        let total: usize = self.visible_device_count();
        if total == 0 {
            self.selected = 0;
            self.scroll = 0;
            return ;
        }
        let current: usize = if self.selected < total {
            self.selected
        } else {
            total - 1
        };
        let next: usize = if rows < total - current {
            current + rows
        } else {
            total - 1
        };
        self.select_index(next);
    }

    /// Moves the cursor up.
    fn move_up(&mut self, rows: usize)
        ensures
            final(self)@ == old(self)@.moved(-rows),
    {
        let total: usize = self.visible_device_count();
        if total == 0 {
            self.selected = 0;
            self.scroll = 0;
            return ;
        }
        let current: usize = if self.selected < total {
            self.selected
        } else {
            total - 1
        };
        self.select_index(current.saturating_sub(rows));
    }

    /// Puts the cursor on the last row.
    fn select_last(&mut self)
        ensures
            final(self)@ == old(self)@.with_index(
                if old(self)@.shown().len() == 0 {
                    0
                } else {
                    old(self)@.shown().len() - 1
                },
            ),
    {
        let total: usize = self.visible_device_count();
        self.select_index(total.saturating_sub(1));
    }

    /// Puts the cursor at the top.
    fn reset_visible_selection(&mut self)
        ensures
            final(self)@ == old(self)@.at_top(),
    {
        self.selected = 0;
        self.scroll = 0;
        self.clamp_selection();
    }

    /// Ends the search.
    fn clear_search(&mut self)
        ensures
            final(self)@ == old(self)@.without_search(),
    {
        self.search_query = String::new();
        self.search_editing = false;
        proof {
            assert(self.search_query@ =~= seq![]);
        }
        self.reset_visible_selection();
    }

    /// Reports whether a search is on.
    pub fn has_search_filter(&self) -> (r: bool)
        ensures
            r == self@.filters(),
    {
        let all = chars(self.search_query.as_str());
        trim(all.as_slice()).len() > 0
    }

    /// Reports whether a warning is known.
    fn knows_warning(&self, warning: &str) -> (r: bool)
        ensures
            r == self@.warnings.contains(warning@),
    {
        let ghost views = self.warnings.deep_view();
        let mut i: usize = 0;
        while i < self.warnings.len()
            invariant
                i <= self.warnings@.len(),
                views == self.warnings.deep_view(),
                forall|k: int| 0 <= k < i ==> views[k] != warning@,
            decreases self.warnings@.len() - i,
        {
            proof {
                assert(views[i as int] == self.warnings@[i as int]@);
            }
            if str_eq(self.warnings[i].as_str(), warning) {
                proof {
                    assert(views.contains(warning@));
                }
                return true;
            }
            i = i + 1;
        }
        false
    }

    /// Adds a warning, unless it is known.
    pub fn warn(&mut self, now: Timestamp, warning: String)
        ensures
            final(self)@ == old(self)@.warned(now, warning@),
    {
        if self.knows_warning(warning.as_str()) {
            return ;
        }
        self.push_log(
            now,
            LiveLogLevel::Warning,
            concat("warning ", warning.as_str()).as_str(),
        );
        let ghost before = self.warnings.deep_view();
        let ghost added = warning@;
        self.warnings.push(warning);
        proof {
            assert(self.warnings.deep_view() =~= before.push(added));
        }
    }

    /// Notes that the scan stopped before it was over.
    pub fn stop(&mut self, now: Timestamp)
        ensures
            final(self)@ == (if old(self)@.finished {
                old(self)@
            } else {
                LiveTableView {
                    phase: "stopped"@,
                    finished: true,
                    ..old(self)@.warned(now, "scan stopped before completion"@)
                }
            }),
    {
        if self.finished {
            return ;
        }
        self.warn(now, owned("scan stopped before completion"));
        self.phase = owned("stopped");
        self.finished = true;
    }

    /// How the view ends when it is left now.
    pub fn outcome(&self) -> (r: LiveOutcome)
        ensures
            r == (if self@.finished {
                LiveOutcome::Completed
            } else {
                LiveOutcome::Cancelled
            }),
    {
        if self.finished {
            LiveOutcome::Completed
        } else {
            LiveOutcome::Cancelled
        }
    }

    /// Notes the interfaces of a summary in the panel.
    fn note_scan_interfaces(&mut self, summary: &str)
        ensures
            final(self)@ == (LiveTableView {
                interface_panel: LiveInterfacePanelView {
                    scan_interfaces: noted(
                        old(self)@.interface_panel.scan_interfaces,
                        text::split_char_spec(summary@, ','),
                    ),
                    ..old(self)@.interface_panel
                },
                ..old(self)@
            }),
    {
        let mut panel = self.interface_panel.clone();
        note_names(&mut panel.scan_interfaces, summary);
        self.interface_panel = panel;
    }

    /// Finds the row with a key.
    fn find_row(&self, key: &DeviceKey) -> (r: usize)
        ensures
            r == row_place(self@.rows, key@),
            r <= self.rows@.len(),
    {
        let ghost views = self.rows.deep_view();
        let mut i: usize = 0;
        proof {
            assert(views.skip(0) =~= views);
        }
        while i < self.rows.len()
            invariant
                i <= self.rows@.len(),
                views == self.rows.deep_view(),
                row_place(views, key@) == i + row_place(views.skip(i as int), key@),
            decreases self.rows@.len() - i,
        {
            proof {
                assert(views.skip(i as int)[0] == self.rows@[i as int]@);
                assert(views.skip(i as int).drop_first() =~= views.skip(i + 1));
            }
            if self.rows[i].key.same(key) {
                return i;
            }
            i = i + 1;
        }
        i
    }

    /// Finds the row of a device, where the table has one.
    pub fn row(&self, key: &DeviceKey) -> (r: Option<&LiveRow>)
        ensures
            match r {
                Some(row) => row_place(self@.rows, key@) < self@.rows.len() && row@
                    == self@.rows[row_place(self@.rows, key@)],
                None => row_place(self@.rows, key@) == self@.rows.len(),
            },
    {
        let k: usize = self.find_row(key);
        if k < self.rows.len() {
            Some(&self.rows[k])
        } else {
            None
        }
    }

    /// Reports whether a device was seen in the current round.
    pub fn device_is_current_round(&self, key: &DeviceKey) -> (r: bool)
        ensures
            r == current_in(self@, key@),
    {
        match self.current_round {
            Some(round) => match self.row(key) {
                Some(row) => match row.round {
                    Some(seen) => seen == round,
                    None => false,
                },
                None => false,
            },
            None => true,
        }
    }

    /// Tells at which time a device will have been last seen once it is in the table.
    pub fn seen_after(&self, device: &Device) -> (r: Timestamp)
        ensures
            r == self@.seen_after_spec(device@),
    {
        let k: usize = self.find_row(&DeviceKey::from_device(device));
        if k < self.rows.len() {
            proof {
                crate::output::live::devices::law_snapshot_keeps_all(
                    self.rows@[k as int].device@,
                    device@,
                );
            }
            if device_mac_changed(&self.rows[k].device, device) || device.last_seen
                > self.rows[k].device.last_seen {
                device.last_seen
            } else {
                self.rows[k].device.last_seen
            }
        } else {
            device.last_seen
        }
    }

    /// Stores a device, and returns what the log says of it.
    fn upsert_device_update(&mut self, device: Device, seen: &str) -> (r: Option<String>)
        ensures
            final(self)@ == (LiveTableView { rows: old(self)@.rows_with(device@), ..old(self)@ }),
            r.deep_view() == old(self)@.report_of(device@, seen@),
    {
        let key = DeviceKey::from_device(&device);
        let ghost before = self.rows.deep_view();
        let ghost d = device@;
        let k: usize = self.find_row(&key);
        if k < self.rows.len() {
            let held = self.rows[k].clone();
            let round = match self.current_round {
                Some(round) => Some(round),
                None => held.round,
            };
            if device_mac_changed(&held.device, &device) {
                let message = concat(
                    "device replaced ",
                    device_log_summary(&device, self.options, seen).as_str(),
                );
                let row = LiveRow { key: held.key, device, round };
                let ghost view = row@;
                self.rows.set(k, row);
                proof {
                    assert(self.rows.deep_view() =~= before.update(k as int, view));
                }
                return Some(message);
            }
            let mut merged = held.device.clone();
            merge_live_device(&mut merged, &device);
            let was = live_identity_signature(&held.device);
            let is = live_identity_signature(&merged);
            let message = if str_eq(was.as_str(), is.as_str()) {
                None
            } else {
                Some(
                    concat(
                        "device updated ",
                        device_log_summary(&merged, self.options, seen).as_str(),
                    ),
                )
            };
            let row = LiveRow { key: held.key, device: merged, round };
            let ghost view = row@;
            self.rows.set(k, row);
            proof {
                assert(self.rows.deep_view() =~= before.update(k as int, view));
            }
            message
        } else {
            let message = concat(
                "device discovered ",
                device_log_summary(&device, self.options, seen).as_str(),
            );
            let row = LiveRow { key, device, round: self.current_round };
            insert::<LiveRow, RowOrder>(&mut self.rows, row);
            Some(message)
        }
    }

    /// Applies a scan event. `seen` is the local clock time of what
    /// [`LiveTable::seen_after`] tells of a device that is reported.
    pub fn apply(&mut self, event: ScanEvent, now: Timestamp, seen: &str)
        ensures
            final(self)@ == old(self)@.applied(event@, now, seen@),
    {
        match event {
            ScanEvent::Started { target, interface, profile } => {
                let front = concat3("scan started target=", target.as_str(), " iface=");
                let back = concat(" profile=", profile.text());
                let message = concat3(front.as_str(), interface.as_str(), back.as_str());
                self.note_scan_interfaces(interface.as_str());
                self.target = Some(target);
                self.interface = Some(interface);
                self.profile = Some(owned(profile.text()));
                self.phase = owned("starting");
                self.push_log(now, LiveLogLevel::Info, message.as_str());
            },
            ScanEvent::RoundStarted { round } => {
                self.current_round = Some(round);
                self.phase = concat("scan round ", decimal(round).as_str());
            },
            ScanEvent::RoundFinished { round } => {},
            ScanEvent::Phase(phase) => {
                self.phase = phase;
            },
            ScanEvent::DeviceUpdated(device) => {
                let key = DeviceKey::from_device(&device);
                if let Some(message) = self.upsert_device_update(*device, seen) {
                    self.push_log(now, LiveLogLevel::Device, message.as_str());
                }
                if !self.paused {
                    self.select_device(&key);
                }
                self.clamp_selection();
            },
            ScanEvent::Warning(warning) => {
                self.warn(now, warning);
            },
            ScanEvent::Finished { devices, warnings } => {
                self.complete(devices, warnings, now);
            },
        }
    }

    /// Adds a log line for each warning that is not known.
    fn tell_warnings(&mut self, warnings: &Vec<String>, now: Timestamp)
        ensures
            final(self)@ == old(self)@.told_of(warnings.deep_view(), now),
    {
        let ghost start = self@;
        let ghost views = warnings.deep_view();
        let mut i: usize = 0;
        proof {
            assert(views.take(0) =~= seq![]);
        }
        while i < warnings.len()
            invariant
                i <= warnings@.len(),
                views == warnings.deep_view(),
                self@ == start.told_of(views.take(i as int), now),
                self@.warnings == start.warnings,
            decreases warnings@.len() - i,
        {
            proof {
                assert(views.take(i + 1).drop_last() =~= views.take(i as int));
                assert(views.take(i + 1).last() == warnings@[i as int]@);
            }
            if !self.knows_warning(warnings[i].as_str()) {
                self.push_log(
                    now,
                    LiveLogLevel::Warning,
                    concat("warning ", warnings[i].as_str()).as_str(),
                );
            }
            i = i + 1;
        }
        proof {
            assert(views.take(i as int) =~= views);
        }
    }

    /// Takes over the result of the scan.
    fn complete(&mut self, devices: Vec<Device>, warnings: Vec<String>, now: Timestamp)
        ensures
            final(self)@ == old(self)@.completed(devices.deep_view(), warnings.deep_view(), now),
    {
        self.rows = list_rows(&devices, self.current_round);
        let device_count: usize = self.rows.len();
        let warning_count: usize = warnings.len();
        self.tell_warnings(&warnings, now);
        self.warnings = warnings;
        self.phase = owned("complete");
        self.finished = true;
        self.clamp_selection();
        let back = concat(" warnings=", decimal(warning_count as u64).as_str());
        let message = concat3(
            "scan complete devices=",
            decimal(device_count as u64).as_str(),
            back.as_str(),
        );
        self.push_log(now, LiveLogLevel::Info, message.as_str());
    }

    /// Handles a key of the search line.
    fn handle_search_key(&mut self, key: KeyEvent)
        ensures
            final(self)@ == old(self)@.search_keyed(key),
    {
        match key.code {
            KeyCode::Esc => {
                self.clear_search();
            },
            KeyCode::Enter => {
                self.search_editing = false;
            },
            KeyCode::Backspace => {
                let all = chars(self.search_query.as_str());
                if all.len() > 0 {
                    let kept = vstd::slice::slice_subrange(all.as_slice(), 0, all.len() - 1);
                    self.search_query = text(kept);
                    proof {
                        assert(kept@ =~= all@.drop_last());
                    }
                }
                self.reset_visible_selection();
            },
            KeyCode::Char(c) => {
                if !key.modifiers.control && !key.modifiers.other {
                    self.search_query.push(c);
                    self.reset_visible_selection();
                }
            },
            _ => {},
        }
    }

    /// Handles a key, and tells what it asks of the program.
    pub fn handle_key(&mut self, key: KeyEvent, now: Timestamp) -> (r: LiveInputAction)
        ensures
            (final(self)@, r) == old(self)@.keyed(key, now),
    {
        let control = key.modifiers.control;
        if control && matches!(key.code, KeyCode::Char('c')) {
            return LiveInputAction::Exit;
        }
        if self.search_editing {
            self.handle_search_key(key);
            return LiveInputAction::Continue;
        }
        if control && matches!(key.code, KeyCode::Char('z')) {
            if self.paused {
                return LiveInputAction::Continue;
            }
            self.paused = true;
            self.phase = owned("paused");
            self.push_log(now, LiveLogLevel::Info, "scan paused");
            return LiveInputAction::Pause;
        }
        if self.paused && matches!(key.code, KeyCode::Esc) {
            self.paused = false;
            self.phase = owned("resuming");
            self.push_log(now, LiveLogLevel::Info, "scan resumed");
            return LiveInputAction::Resume;
        }
        self.steer(key);
        LiveInputAction::Continue
    }

    /// Handles a key that moves the cursor or opens or clears the search.
    fn steer(&mut self, key: KeyEvent)
        ensures
            final(self)@ == old(self)@.steered(key),
    {
        let control = key.modifiers.control;
        match key.code {
            KeyCode::Char(c) => {
                if c == '/' {
                    self.search_editing = true;
                } else if c == 'j' {
                    self.move_down(1);
                } else if c == 'k' {
                    self.move_up(1);
                } else if c == 'd' && control {
                    self.move_down(10);
                } else if c == 'u' && control {
                    self.move_up(10);
                }
            },
            KeyCode::Esc => {
                if self.has_search_filter() {
                    self.clear_search();
                }
            },
            KeyCode::Down => {
                self.move_down(1);
            },
            KeyCode::Up => {
                self.move_up(1);
            },
            KeyCode::PageDown => {
                self.move_down(10);
            },
            KeyCode::PageUp => {
                self.move_up(10);
            },
            KeyCode::Home => {
                self.select_index(0);
            },
            KeyCode::End => {
                self.select_last();
            },
            _ => {},
        }
    }

    /// Writes what the footer shows on its right: the search, and whether the scan is
    /// paused.
    pub fn footer_indicator(&self) -> (r: Option<String>)
        ensures
            r.deep_view() == indicator_spec(self@),
    {
        if self.search_editing || self.has_search_filter() {
            let filter = concat("filter=/", self.search_query.as_str());
            if self.paused {
                Some(concat(filter.as_str(), "  Paused"))
            } else {
                Some(filter)
            }
        } else if self.paused {
            Some(owned("Paused"))
        } else {
            None
        }
    }

    /// Builds the status line of the log panel.
    pub fn status_line(&self) -> (r: Vec<TextSpan>)
        ensures
            r.deep_view() == status_spec(self@),
    {
        let mut line: Vec<TextSpan> = Vec::new();
        line.push(TextSpan { text: owned("status="), tone: Tone::Label });
        let status = if self.paused {
            "paused"
        } else if self.finished {
            "complete"
        } else {
            "scanning"
        };
        line.push(TextSpan { text: owned(status), tone: Tone::Value });
        line.push(TextSpan { text: owned("  profile="), tone: Tone::Label });
        let profile = match &self.profile {
            Some(profile) => profile.clone(),
            None => owned("-"),
        };
        line.push(TextSpan { text: profile, tone: Tone::Value });
        line.push(TextSpan { text: owned("  phase="), tone: Tone::Label });
        line.push(TextSpan { text: self.phase.clone(), tone: Tone::Value });
        proof {
            assert(line.deep_view() =~= status_spec(self@));
        }
        line
    }

    /// Finds the first line of the log that the log panel has room for.
    pub fn first_visible_log(&self) -> (r: usize)
        ensures
            r == (if self@.logs.len() < INTERFACE_PANEL_VISIBLE_ROWS {
                0
            } else {
                self@.logs.len() - INTERFACE_PANEL_VISIBLE_ROWS
            }),
    {
        self.logs.len().saturating_sub(INTERFACE_PANEL_VISIBLE_ROWS as usize)
    }

    /// Moves the table so that the cursor is on screen, and returns its first row. The
    /// table does not jump on every refresh: it moves only when the cursor crosses an
    /// edge.
    pub fn update_table_offset(&mut self, height: u16) -> (r: usize)
        ensures
            r == layout::offset_spec(old(self)@.selected, old(self)@.scroll, body_rows(height)),
            final(self)@ == (LiveTableView { scroll: r, ..old(self)@ }),
    {
        let body: u16 = height.saturating_sub(3);
        let rows: usize = if body == 0 {
            1
        } else {
            body as usize
        };
        self.scroll = corrected_table_offset(self.selected, self.scroll, rows);
        self.scroll
    }
}

/// The rows of a table of a height: without its borders and head, and at least one.
pub open spec fn body_rows(height: u16) -> usize {
    if height <= 4 {
        1
    } else {
        (height - 3) as usize
    }
}

/// The content of rows behind references.
pub open spec fn row_views(rows: Seq<&LiveRow>) -> Seq<LiveRowView> {
    Seq::new(rows.len(), |i: int| rows[i]@)
}

/// A device was seen in the current round. Before the first round every one counts.
pub open spec fn current_in(t: LiveTableView, key: DeviceKeyView) -> bool {
    match t.current_round {
        Some(round) => row_place(t.rows, key) < t.rows.len() && t.rows[row_place(
            t.rows,
            key,
        )].round == Some(round),
        None => true,
    }
}

/// What the footer shows on its right.
pub open spec fn indicator_spec(t: LiveTableView) -> Option<Seq<char>> {
    if t.search_editing || t.filters() {
        if t.paused {
            Some("filter=/"@ + t.search_query + "  Paused"@)
        } else {
            Some("filter=/"@ + t.search_query)
        }
    } else if t.paused {
        Some("Paused"@)
    } else {
        None
    }
}

/// The status line of the log panel.
pub open spec fn status_spec(t: LiveTableView) -> Seq<TextSpanView> {
    seq![
        logs::span("status="@, Tone::Label),
        logs::span(
            if t.paused {
                "paused"@
            } else if t.finished {
                "complete"@
            } else {
                "scanning"@
            },
            Tone::Value,
        ),
        logs::span("  profile="@, Tone::Label),
        logs::span(
            match t.profile {
                Some(profile) => profile,
                None => "-"@,
            },
            Tone::Value,
        ),
        logs::span("  phase="@, Tone::Label),
        logs::span(t.phase, Tone::Value),
    ]
}

/// Notes the interfaces of a summary.
fn note_names(all: &mut Vec<String>, summary: &str)
    ensures
        final(all).deep_view() == noted(old(all).deep_view(), text::split_char_spec(summary@, ',')),
{
    let ghost start = all.deep_view();
    let letters = chars(summary);
    let pieces = split_char(letters.as_slice(), ',');
    let ghost views = crate::text::slice_views(pieces@);
    let mut i: usize = 0;
    proof {
        assert(views.take(0) =~= seq![]);
    }
    while i < pieces.len()
        invariant
            i <= pieces@.len(),
            views == crate::text::slice_views(pieces@),
            all.deep_view() == noted(start, views.take(i as int)),
        decreases pieces@.len() - i,
    {
        proof {
            assert(views.take(i + 1).drop_last() =~= views.take(i as int));
            assert(views.take(i + 1).last() == pieces@[i as int]@);
        }
        let name = trim(pieces[i]);
        if name.len() > 0 && !is_text(name, "default") {
            let name = text(name);
            let ghost before = all.deep_view();
            if !names_contain(all, name.as_str()) {
                let ghost added = name@;
                all.push(name);
                proof {
                    assert(all.deep_view() =~= before.push(added));
                }
            }
        }
        i = i + 1;
    }
    proof {
        assert(views.take(i as int) =~= views);
    }
}

/// Reports whether a list holds a name.
fn names_contain(all: &Vec<String>, name: &str) -> (r: bool)
    ensures
        r == all.deep_view().contains(name@),
{
    let ghost views = all.deep_view();
    let mut i: usize = 0;
    while i < all.len()
        invariant
            i <= all@.len(),
            views == all.deep_view(),
            forall|k: int| 0 <= k < i ==> views[k] != name@,
        decreases all@.len() - i,
    {
        proof {
            assert(views[i as int] == all@[i as int]@);
        }
        if str_eq(all[i].as_str(), name) {
            proof {
                assert(views.contains(name@));
            }
            return true;
        }
        i = i + 1;
    }
    false
}

/// Makes a row for each device.
fn list_rows(devices: &Vec<Device>, round: Option<u64>) -> (r: Vec<LiveRow>)
    ensures
        r.deep_view() == rows_of(devices.deep_view(), round),
{
    let ghost views = devices.deep_view();
    let mut rows: Vec<LiveRow> = Vec::new();
    let mut i: usize = 0;
    proof {
        assert(views.take(0) =~= seq![]);
        assert(rows.deep_view() =~= seq![]);
    }
    while i < devices.len()
        invariant
            i <= devices@.len(),
            views == devices.deep_view(),
            rows.deep_view() == rows_of(views.take(i as int), round),
        decreases devices@.len() - i,
    {
        proof {
            assert(views.take(i + 1).drop_last() =~= views.take(i as int));
            assert(views.take(i + 1).last() == devices@[i as int]@);
        }
        let row = LiveRow {
            key: DeviceKey::from_device(&devices[i]),
            device: devices[i].clone(),
            round,
        };
        set_row(&mut rows, row);
        i = i + 1;
    }
    proof {
        assert(views.take(i as int) =~= views);
    }
    rows
}

/// Sets a row in the place of the row with its key, or inserts it in order.
fn set_row(rows: &mut Vec<LiveRow>, row: LiveRow)
    ensures
        final(rows).deep_view() == with_row(old(rows).deep_view(), row@),
{
    let ghost views = rows.deep_view();
    let ghost view = row@;
    let mut i: usize = 0;
    proof {
        assert(views.skip(0) =~= views);
    }
    while i < rows.len() && !rows[i].key.same(&row.key)
        invariant
            i <= rows@.len(),
            views == rows.deep_view(),
            view == row@,
            row_place(views, row@.key) == i + row_place(views.skip(i as int), row@.key),
        decreases rows@.len() - i,
    {
        proof {
            assert(views.skip(i as int)[0] == rows@[i as int]@);
            assert(views.skip(i as int).drop_first() =~= views.skip(i + 1));
        }
        i = i + 1;
    }
    if i < rows.len() {
        proof {
            assert(views.skip(i as int)[0] == rows@[i as int]@);
        }
        rows.set(i, row);
        proof {
            assert(rows.deep_view() =~= views.update(i as int, view));
        }
    } else {
        insert::<LiveRow, RowOrder>(rows, row);
    }
}

/// A table whose cursor was put on a row that is on show is valid.
proof fn lemma_clamped_valid(t: LiveTableView)
    requires
        by_key(t.rows),
        t.logs.len() <= MAX_LIVE_LOG_LINES,
    ensures
        t.clamped().valid(),
{
}

/// The rows of devices are in order.
proof fn lemma_rows_of(devices: Seq<DeviceView>, round: Option<u64>)
    ensures
        by_key(rows_of(devices, round)),
    decreases devices.len(),
{
    if devices.len() > 0 {
        let d = devices.last();
        lemma_rows_of(devices.drop_last(), round);
        lemma_with_row(
            rows_of(devices.drop_last(), round),
            LiveRowView { key: devices::key_of(d), device: d, round },
        );
    }
}

/// Telling warnings changes nothing but the log, which stays bounded.
proof fn lemma_told(t: LiveTableView, warnings: Seq<Seq<char>>, now: Timestamp)
    requires
        t.logs.len() <= MAX_LIVE_LOG_LINES,
    ensures
        t.told_of(warnings, now).logs.len() <= MAX_LIVE_LOG_LINES,
        t.told_of(warnings, now).rows == t.rows,
    decreases warnings.len(),
{
    if warnings.len() > 0 {
        lemma_told(t, warnings.drop_last(), now);
    }
}

/// Whatever events come, the rows stay in order with one for each device, the log
/// stays bounded, and the cursor stays on a row that is on show.
pub proof fn law_events_keep_the_table_valid(
    t: LiveTableView,
    event: ScanEventView,
    now: Timestamp,
    seen: Seq<char>,
)
    requires
        t.valid(),
    ensures
        t.applied(event, now, seen).valid(),
{
    match event {
        ScanEventView::DeviceUpdated(d) => {
            let key = devices::key_of(d);
            let k = row_place(t.rows, key);
            lemma_row_place(t.rows, key);
            if k < t.rows.len() {
                let rows = t.rows_with(d);
                assert forall|i: int, j: int| 0 <= i < j < rows.len() implies devices::key_less(
                    (#[trigger] rows[i]).key,
                    (#[trigger] rows[j]).key,
                ) by {
                    assert(devices::key_less(t.rows[i].key, t.rows[j].key));
                }
            } else {
                lemma_with_row(
                    t.rows,
                    LiveRowView { key, device: d, round: t.current_round },
                );
            }
        },
        ScanEventView::Finished { devices, warnings } => {
            let rows = rows_of(devices, t.current_round);
            lemma_rows_of(devices, t.current_round);
            let fresh = LiveTableView { rows, ..t };
            lemma_told(fresh, warnings, now);
            let told = fresh.told_of(warnings, now);
            let done = LiveTableView { warnings, phase: "complete"@, finished: true, ..told };
            lemma_clamped_valid(done);
        },
        _ => {},
    }
}

/// Whatever keys are pressed, the table stays valid.
pub proof fn law_keys_keep_the_table_valid(t: LiveTableView, key: KeyEvent, now: Timestamp)
    requires
        t.valid(),
    ensures
        t.keyed(key, now).0.valid(),
{
}

/// While the scan is paused, reported devices do not move the cursor.
pub proof fn law_pause_freezes_the_cursor(
    t: LiveTableView,
    d: DeviceView,
    now: Timestamp,
    seen: Seq<char>,
)
    requires
        t.paused,
        t.selected < t.applied(ScanEventView::DeviceUpdated(d), now, seen).shown().len(),
    ensures
        t.applied(ScanEventView::DeviceUpdated(d), now, seen).selected == t.selected,
{
}

/// A report keeps everything that the row of its device holds, unless the MAC address
/// changed, and marks the row as seen in the current round. No other row changes.
pub proof fn law_reports_keep_rows(
    t: LiveTableView,
    d: DeviceView,
    now: Timestamp,
    seen: Seq<char>,
)
    requires
        row_place(t.rows, devices::key_of(d)) < t.rows.len(),
    ensures
        ({
            let k = row_place(t.rows, devices::key_of(d));
            let after = t.applied(ScanEventView::DeviceUpdated(d), now, seen);
            &&& after.rows.len() == t.rows.len()
            &&& forall|i: int| 0 <= i < t.rows.len() && i != k ==> after.rows[i] == t.rows[i]
            &&& after.rows[k].key == t.rows[k].key
            &&& t.current_round is Some ==> after.rows[k].round == t.current_round
            &&& store::mac_conflict(t.rows[k].device, d) ==> after.rows[k].device == d
            &&& !store::mac_conflict(t.rows[k].device, d) && t.rows[k].device.interface is Some
                ==> crate::scanner::apply::keeps_all(t.rows[k].device, after.rows[k].device)
        }),
{
    let k = row_place(t.rows, devices::key_of(d));
    lemma_row_place(t.rows, devices::key_of(d));
    devices::law_snapshot_keeps_all(t.rows[k].device, d);
}

/// When a round starts that no row was seen in, no row counts as seen in it.
pub proof fn law_new_round_makes_rows_stale(
    t: LiveTableView,
    round: u64,
    key: devices::DeviceKeyView,
    now: Timestamp,
)
    requires
        forall|i: int| 0 <= i < t.rows.len() ==> (#[trigger] t.rows[i]).round != Some(round),
    ensures
        !current_in(t.applied(ScanEventView::RoundStarted { round }, now, seq![]), key),
{
    lemma_row_place(t.rows, key);
}

/// A resumed scan takes up where it was paused: pausing and resuming change the phase
/// and the log only.
pub proof fn law_pause_then_resume(t: LiveTableView, now: Timestamp, later: Timestamp)
    requires
        !t.paused,
        !t.search_editing,
    ensures
        ({
            let control = KeyModifiers { control: true, shift: false, other: false };
            let plain = KeyModifiers { control: false, shift: false, other: false };
            let (held, first) = t.keyed(
                KeyEvent { code: KeyCode::Char('z'), modifiers: control },
                now,
            );
            let (back, second) = held.keyed(
                KeyEvent { code: KeyCode::Esc, modifiers: plain },
                later,
            );
            &&& first == LiveInputAction::Pause
            &&& second == LiveInputAction::Resume
            &&& held.paused
            &&& back == (LiveTableView { phase: back.phase, logs: back.logs, ..t })
        }),
{
}

} // verus!
