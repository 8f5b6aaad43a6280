//! Scans of several interfaces, and scans that go on in rounds.
//!
//! A scan of several interfaces runs one ordinary scan for each, without cache and
//! without an end of its own, and behaves like one combined scan.

use crate::identity_rules::{apply_identity_rules, RuleDb, RuleDbView};
use crate::identity_rules;
use crate::model::{Device, DeviceView, ScanResult, ScanResultView, Timestamp};
use crate::same::holds;
use crate::scanner::apply::{merge_devices_by_interface_ip, DeviceByInterface};
use crate::scanner::apply;
use crate::scanner::phases::{idle_phase, scan_target_summary};
use crate::scanner::phases;
use crate::scanner::session::push_event;
use crate::scanner::session;
use crate::scanner::types::{ScanConfig, ScanConfigView, ScanEvent, ScanEventView};
use crate::sort::sorted;
use crate::sort;
use crate::store::merge_previous_scan;
use crate::store;
use crate::text::{concat, concat3, concat4, decimal, join, owned};
use crate::text;
use vstd::prelude::*;

verus! {

/// The warnings with one more, unless it is there.
pub open spec fn with_warning(warnings: Seq<Seq<char>>, warning: Seq<char>) -> Seq<Seq<char>> {
    if warnings.contains(warning) {
        warnings
    } else {
        warnings.push(warning)
    }
}

/// Adds a warning unless it is there.
pub fn push_unique_warning(warnings: &mut Vec<String>, warning: String)
    ensures
        final(warnings).deep_view() == with_warning(old(warnings).deep_view(), warning@),
{
    if !holds(warnings, &warning) {
        let ghost before = warnings.deep_view();
        let ghost w = warning@;
        warnings.push(warning);
        proof {
            assert(warnings.deep_view() =~= before.push(w));
        }
    }
}

/// The warnings with those of the scan of one interface, which they name.
pub open spec fn with_child_warnings(
    warnings: Seq<Seq<char>>,
    interface: Seq<char>,
    more: Seq<Seq<char>>,
) -> Seq<Seq<char>>
    decreases more.len(),
{
    if more.len() == 0 {
        warnings
    } else {
        with_warning(
            with_child_warnings(warnings, interface, more.drop_last()),
            interface + ": "@ + more.last(),
        )
    }
}

/// The warnings of a scan never repeat, whatever its interfaces report, and none is
/// lost.
pub proof fn law_warnings_never_repeat(
    warnings: Seq<Seq<char>>,
    interface: Seq<char>,
    more: Seq<Seq<char>>,
)
    requires
        warnings.no_duplicates(),
    ensures
        with_child_warnings(warnings, interface, more).no_duplicates(),
        forall|w: Seq<char>|
            warnings.contains(w) ==> #[trigger] with_child_warnings(
                warnings,
                interface,
                more,
            ).contains(w),
        forall|i: int|
            0 <= i < more.len() ==> with_child_warnings(warnings, interface, more).contains(
                interface + ": "@ + #[trigger] more[i],
            ),
    decreases more.len(),
{
    if more.len() > 0 {
        let front = more.drop_last();
        law_warnings_never_repeat(warnings, interface, front);
        let before = with_child_warnings(warnings, interface, front);
        let last = interface + ": "@ + more.last();
        let after = with_child_warnings(warnings, interface, more);
        if !before.contains(last) {
            assert(after[before.len() as int] == last);
        }
        assert forall|w: Seq<char>| before.contains(w) implies #[trigger] after.contains(w) by {
            let k = choose|k: int| 0 <= k < before.len() && before[k] == w;
            assert(after[k] == w);
        }
        assert forall|i: int| 0 <= i < more.len() implies after.contains(
            interface + ": "@ + #[trigger] more[i],
        ) by {
            if i < front.len() {
                assert(front[i] == more[i]);
                assert(before.contains(interface + ": "@ + front[i]));
            }
        }
    }
}

/// The names of the interfaces, as they are shown.
pub open spec fn shown_interfaces(configs: Seq<ScanConfigView>) -> Seq<Seq<char>> {
    configs.map_values(
        |c: ScanConfigView|
            match c.iface {
                Some(name) => name,
                None => "default"@,
            },
    )
}

/// Sums up the interfaces of several configurations.
pub fn interface_summary(configs: &Vec<ScanConfig>) -> (r: String)
    ensures
        r@ == text::join_spec(shown_interfaces(configs.deep_view()), ","@),
{
    let mut names: Vec<String> = Vec::new();
    let mut i: usize = 0;
    while i < configs.len()
        invariant
            i <= configs@.len(),
            names@.len() == i,
            forall|k: int|
                0 <= k < i ==> (#[trigger] names@[k])@ == (match configs@[k]@.iface {
                    Some(name) => name,
                    None => "default"@,
                }),
        decreases configs@.len() - i,
    {
        let name = match &configs[i].iface {
            Some(name) => name.clone(),
            None => owned("default"),
        };
        names.push(name);
        i = i + 1;
    }
    proof {
        assert(names.deep_view() =~= shown_interfaces(configs.deep_view()));
    }
    join(&names, ",")
}

/// A configuration without cache.
#[verifier::opaque]
pub open spec fn uncached(c: ScanConfigView) -> ScanConfigView {
    ScanConfigView { cache_enabled: false, ..c }
}

/// A copy of a configuration without cache.
fn without_cache(config: &ScanConfig) -> (r: ScanConfig)
    ensures
        r@ == uncached(config@),
{
    proof {
        reveal(uncached);
    }
    let mut r = config.clone();
    r.cache_enabled = false;
    r
}

/// The configurations of the scans of the interfaces: the cache is merged once, after
/// all of them, or the last to finish would overwrite what the others learned.
pub fn child_configs(configs: &Vec<ScanConfig>) -> (r: Vec<ScanConfig>)
    ensures
        r.deep_view() == configs.deep_view().map_values(|c: ScanConfigView| uncached(c)),
{
    let ghost views = configs.deep_view();
    let mut out: Vec<ScanConfig> = Vec::new();
    let mut i: usize = 0;
    while i < configs.len()
        invariant
            i <= configs@.len(),
            views == configs.deep_view(),
            out@.len() == i,
            forall|k: int| 0 <= k < i ==> (#[trigger] out@[k])@ == uncached(views[k]),
        decreases configs@.len() - i,
    {
        out.push(without_cache(&configs[i]));
        i = i + 1;
    }
    proof {
        assert(out.deep_view() =~= views.map_values(|c: ScanConfigView| uncached(c)));
    }
    out
}

/// How many of the scans of the interfaces run at the same time.
pub fn scan_concurrency(configs: &Vec<ScanConfig>) -> (r: usize)
    requires
        configs@.len() > 0,
    ensures
        r == (if configs@[0].concurrency > 1 {
            configs@[0].concurrency
        } else {
            1
        }),
{
    if configs[0].concurrency > 1 {
        configs[0].concurrency
    } else {
        1
    }
}

/// What to do with several configurations.
pub enum ScanPlan {
    /// Nothing can be scanned; why.
    Refused(String),
    /// One interface.
    Single(ScanConfig),
    /// Several interfaces.
    Many(Vec<ScanConfig>),
}

/// Decides what to do with several configurations.
pub fn plan_scan(configs: Vec<ScanConfig>) -> (r: ScanPlan)
    ensures
        match r {
            ScanPlan::Refused(e) => configs@.len() == 0 && e@ == "no scan targets configured"@,
            ScanPlan::Single(config) => configs@.len() == 1 && config == configs@[0],
            ScanPlan::Many(all) => configs@.len() > 1 && all == configs,
        },
{
    let mut configs = configs;
    if configs.len() <= 1 {
        match configs.pop() {
            Some(config) => ScanPlan::Single(config),
            None => ScanPlan::Refused(owned("no scan targets configured")),
        }
    } else {
        ScanPlan::Many(configs)
    }
}

/// A scan of several interfaces.
pub struct MultiScan {
    pub rules: RuleDb,
    pub cache_enabled: bool,
    pub scanned_at: Timestamp,
    pub emit_finished: bool,
    pub targets: Vec<String>,
    pub interfaces: Vec<String>,
    pub warnings: Vec<String>,
    pub devices: Vec<Device>,
}

/// The mathematical content of a [`MultiScan`].
#[verifier::ext_equal]
pub struct MultiScanView {
    pub rules: RuleDbView,
    pub cache_enabled: bool,
    pub scanned_at: Timestamp,
    pub emit_finished: bool,
    pub targets: Seq<Seq<char>>,
    pub interfaces: Seq<Seq<char>>,
    pub warnings: Seq<Seq<char>>,
    pub devices: Seq<DeviceView>,
}

impl View for MultiScan {
    type V = MultiScanView;

    open spec fn view(&self) -> MultiScanView {
        MultiScanView {
            rules: self.rules@,
            cache_enabled: self.cache_enabled,
            scanned_at: self.scanned_at,
            emit_finished: self.emit_finished,
            targets: self.targets.deep_view(),
            interfaces: self.interfaces.deep_view(),
            warnings: self.warnings.deep_view(),
            devices: self.devices.deep_view(),
        }
    }
}

/// What comes after the scans of the interfaces.
#[derive(Clone, Copy, Debug, PartialEq, Eq, Structural)]
pub enum MultiAction {
    /// Read the earlier scan.
    LoadCache,
    /// Write this scan.
    SaveCache,
    /// Nothing is left to do.
    Finish,
}

impl MultiScanView {
    /// The scan with the result of one interface.
    pub open spec fn with_child(self, child: ScanResultView) -> MultiScanView {
        MultiScanView {
            targets: self.targets.push(child.target),
            interfaces: self.interfaces.push(child.interface),
            warnings: with_child_warnings(self.warnings, child.interface, child.warnings),
            devices: self.devices + child.devices,
            ..self
        }
    }

    /// The scan after the records of all interfaces were united, by interface and
    /// address.
    pub open spec fn merged(self) -> MultiScanView {
        MultiScanView {
            devices: sort::sorted_spec::<Device, DeviceByInterface>(apply::united(self.devices)),
            ..self
        }
    }

    /// The scan is over, and says so where that is wanted.
    pub open spec fn done(self, events: Seq<ScanEventView>) -> Seq<ScanEventView> {
        if self.emit_finished {
            events.push(
                ScanEventView::Finished { devices: self.devices, warnings: self.warnings },
            )
        } else {
            events
        }
    }

    /// The scan with what an earlier one knows, and with the rules applied.
    pub open spec fn with_cache(self, previous: Seq<DeviceView>) -> MultiScanView {
        MultiScanView {
            devices: store::merged_scan(self.devices, previous).map_values(
                |d: DeviceView| identity_rules::identity_rules_spec(d, self.rules),
            ),
            ..self
        }
    }

    /// The scan after something did not work.
    pub open spec fn warned(self, warning: Seq<char>) -> MultiScanView {
        MultiScanView { warnings: with_warning(self.warnings, warning), ..self }
    }
}

impl MultiScan {
    /// A scan of several interfaces before any of them is done, and the event that
    /// begins it.
    pub fn start(
        configs: &Vec<ScanConfig>,
        rules: RuleDb,
        scanned_at: Timestamp,
        emit_finished: bool,
    ) -> (r: (Self, ScanEvent))
        requires
            configs@.len() > 0,
        ensures
            r.0@ == (MultiScanView {
                rules: rules@,
                cache_enabled: configs@[0].cache_enabled,
                scanned_at,
                emit_finished,
                targets: seq![],
                interfaces: seq![],
                warnings: seq![],
                devices: seq![],
            }),
            r.1@ == (ScanEventView::Started {
                target: text::join_spec(phases::shown_targets(configs.deep_view()), ","@),
                interface: text::join_spec(shown_interfaces(configs.deep_view()), ","@),
                profile: configs@[0].profile,
            }),
    {
        let event = ScanEvent::Started {
            target: scan_target_summary(configs),
            interface: interface_summary(configs),
            profile: configs[0].profile,
        };
        let scan = MultiScan {
            rules,
            cache_enabled: configs[0].cache_enabled,
            scanned_at,
            emit_finished,
            targets: Vec::new(),
            interfaces: Vec::new(),
            warnings: Vec::new(),
            devices: Vec::new(),
        };
        proof {
            assert(scan.targets.deep_view() =~= seq![]);
            assert(scan.interfaces.deep_view() =~= seq![]);
            assert(scan.warnings.deep_view() =~= seq![]);
            assert(scan.devices.deep_view() =~= seq![]);
        }
        (scan, event)
    }

    /// Takes in the result of one interface.
    pub fn child_done(&mut self, child: ScanResult)
        ensures
            final(self)@ == old(self)@.with_child(child@),
    {
        let ghost targets = self.targets.deep_view();
        let ghost interfaces = self.interfaces.deep_view();
        let ghost devices = self.devices.deep_view();
        self.targets.push(child.target.clone());
        self.interfaces.push(child.interface.clone());
        let ghost start = self.warnings.deep_view();
        let ghost more = child.warnings.deep_view();
        let ghost added = child.devices.deep_view();
        let mut i: usize = 0;
        while i < child.warnings.len()
            invariant
                i <= child.warnings@.len(),
                more == child.warnings.deep_view(),
                added == child.devices.deep_view(),
                self.rules == old(self).rules,
                self.cache_enabled == old(self).cache_enabled,
                self.scanned_at == old(self).scanned_at,
                self.emit_finished == old(self).emit_finished,
                self.devices == old(self).devices,
                self.targets.deep_view() == targets.push(child@.target),
                self.interfaces.deep_view() == interfaces.push(child@.interface),
                self.warnings.deep_view() == with_child_warnings(
                    start,
                    child@.interface,
                    more.take(i as int),
                ),
            decreases child.warnings@.len() - i,
        {
            proof {
                assert(more.take(i + 1).drop_last() =~= more.take(i as int));
                assert(more.take(i + 1).last() == child.warnings@[i as int]@);
            }
            push_unique_warning(
                &mut self.warnings,
                concat3(child.interface.as_str(), ": ", child.warnings[i].as_str()),
            );
            i = i + 1;
        }
        proof {
            assert(more.take(i as int) =~= more);
        }
        let mut found = child.devices;
        self.devices.append(&mut found);
        proof {
            assert(self.devices.deep_view() =~= devices + added);
        }
    }

    /// Says that the scan is over, where that is wanted.
    fn finish(&self, events: &mut Vec<ScanEvent>)
        ensures
            final(events).deep_view() == self@.done(old(events).deep_view()),
    {
        if self.emit_finished {
            let devices = self.devices.clone();
            let warnings = self.warnings.clone();
            proof {
                assert(devices.deep_view() =~= self.devices.deep_view());
                assert(warnings.deep_view() =~= self.warnings.deep_view());
            }
            push_event(events, ScanEvent::Finished { devices, warnings });
        }
    }

    /// All interfaces are done: unites their records, and decides what comes next.
    pub fn children_done(&mut self) -> (r: (Vec<ScanEvent>, MultiAction))
        ensures
            final(self)@ == old(self)@.merged(),
            old(self)@.cache_enabled ==> r.1 == MultiAction::LoadCache && r.0.deep_view() == seq![
                ScanEventView::Phase("multi-interface cache merge"@),
            ],
            !old(self)@.cache_enabled ==> r.1 == MultiAction::Finish && r.0.deep_view()
                == old(self)@.merged().done(Seq::empty()),
    {
        let devices = self.devices.clone();
        proof {
            assert(devices.deep_view() =~= self.devices.deep_view());
        }
        self.devices = sorted::<Device, DeviceByInterface>(merge_devices_by_interface_ip(devices));
        let mut events: Vec<ScanEvent> = Vec::new();
        proof {
            assert(events.deep_view() =~= Seq::empty());
        }
        if self.cache_enabled {
            push_event(&mut events, ScanEvent::Phase(owned("multi-interface cache merge")));
            (events, MultiAction::LoadCache)
        } else {
            self.finish(&mut events);
            (events, MultiAction::Finish)
        }
    }

    /// Applies the rules to every device, and shows each.
    fn show_all(&mut self, events: &mut Vec<ScanEvent>)
        ensures
            final(self)@ == (MultiScanView {
                devices: old(self)@.devices.map_values(
                    |d: DeviceView| identity_rules::identity_rules_spec(d, old(self)@.rules),
                ),
                ..old(self)@
            }),
            final(events).deep_view() == old(events).deep_view() + session::updates(final(self)@.devices),
    {
        let ghost views = self.devices.deep_view();
        let ghost start = self@;
        let ghost first = events.deep_view();
        let ghost rules = self.rules@;
        let ghost want = views.map_values(|d: DeviceView| identity_rules::identity_rules_spec(d, start.rules));
        let mut i: usize = 0;
        proof {
            assert(first + session::updates(want.take(0)) =~= first);
        }
        while i < self.devices.len()
            invariant
                i <= self.devices@.len(),
                views.len() == self.devices@.len(),
                want.len() == views.len(),
                rules == self.rules@,
                forall|k: int|
                    0 <= k < views.len() ==> #[trigger] want[k] == identity_rules::identity_rules_spec(
                        views[k],
                        rules,
                    ),
                self@ == (MultiScanView { devices: self@.devices, ..start }),
                forall|k: int|
                    0 <= k < views.len() ==> (#[trigger] self.devices@[k])@ == (if k < i {
                        want[k]
                    } else {
                        views[k]
                    }),
                events.deep_view() == first + session::updates(want.take(i as int)),
            decreases self.devices@.len() - i,
        {
            let mut device = self.devices[i].clone();
            apply_identity_rules(&mut device, &self.rules);
            proof {
                assert(device@ == want[i as int]);
                assert(session::updates(want.take(i + 1)) =~= session::updates(want.take(i as int)).push(
                    ScanEventView::DeviceUpdated(want[i as int]),
                ));
            }
            let event = ScanEvent::DeviceUpdated(Box::new(device.clone()));
            push_event(events, event);
            self.devices.set(i, device);
            proof {
                assert(events.deep_view() =~= first + session::updates(want.take(i + 1)));
            }
            i = i + 1;
        }
        proof {
            assert(want.take(i as int) =~= want);
            assert(self.devices.deep_view() =~= want);
        }
    }

    /// Takes in the earlier scan, or why it could not be read.
    pub fn cache_loaded(&mut self, result: Result<Vec<Device>, String>) -> (r: (
        Vec<ScanEvent>,
        MultiAction,
    ))
        ensures
            match result {
                Ok(previous) => final(self)@ == old(self)@.with_cache(previous.deep_view()) && r.1
                    == MultiAction::SaveCache && r.0.deep_view() == session::updates(final(self)@.devices),
                Err(e) => final(self)@ == old(self)@.warned("failed to load scan cache: "@ + e@)
                    && r.1 == MultiAction::Finish && r.0.deep_view() == final(self)@.done(
                    seq![ScanEventView::Warning("failed to load scan cache: "@ + e@)],
                ),
            },
    {
        let mut events: Vec<ScanEvent> = Vec::new();
        proof {
            assert(events.deep_view() =~= Seq::empty());
        }
        match result {
            Ok(previous) => {
                merge_previous_scan(&mut self.devices, &previous);
                self.show_all(&mut events);
                proof {
                    assert(events.deep_view() =~= session::updates(self@.devices));
                }
                (events, MultiAction::SaveCache)
            },
            Err(e) => {
                let warning = concat("failed to load scan cache: ", e.as_str());
                push_event(&mut events, ScanEvent::Warning(warning.clone()));
                push_unique_warning(&mut self.warnings, warning);
                self.finish(&mut events);
                (events, MultiAction::Finish)
            },
        }
    }

    /// This scan was written, or why not.
    pub fn cache_saved(&mut self, reason: Option<String>) -> (r: Vec<ScanEvent>)
        ensures
            match reason {
                Some(e) => final(self)@ == old(self)@.warned("failed to save scan cache: "@ + e@)
                    && r.deep_view() == final(self)@.done(
                    seq![ScanEventView::Warning("failed to save scan cache: "@ + e@)],
                ),
                None => final(self)@ == old(self)@ && r.deep_view() == old(self)@.done(
                    Seq::empty(),
                ),
            },
    {
        let mut events: Vec<ScanEvent> = Vec::new();
        proof {
            assert(events.deep_view() =~= Seq::empty());
        }
        match reason {
            Some(e) => {
                let warning = concat("failed to save scan cache: ", e.as_str());
                push_event(&mut events, ScanEvent::Warning(warning.clone()));
                push_unique_warning(&mut self.warnings, warning);
            },
            None => {},
        }
        self.finish(&mut events);
        events
    }

    /// The result of the scan.
    pub fn result(&self) -> (r: ScanResult)
        ensures
            r@ == (ScanResultView {
                target: text::join_spec(self@.targets, ","@),
                interface: text::join_spec(self@.interfaces, ","@),
                scanned_at: self@.scanned_at,
                devices: self@.devices,
                warnings: self@.warnings,
            }),
    {
        let r = ScanResult {
            target: join(&self.targets, ","),
            interface: join(&self.interfaces, ","),
            scanned_at: self.scanned_at,
            devices: self.devices.clone(),
            warnings: self.warnings.clone(),
        };
        proof {
            assert(r.devices.deep_view() =~= self.devices.deep_view());
            assert(r.warnings.deep_view() =~= self.warnings.deep_view());
        }
        r
    }
}

/// The rounds of a continuous scan.
pub struct ScanRounds {
    pub round: u64,
    pub interval: u64,
}

impl ScanRounds {
    /// The first round, with a pause of so many milliseconds after each.
    pub fn new(interval: u64) -> (r: Self)
        ensures
            r.round == 1,
            r.interval == interval,
    {
        ScanRounds { round: 1, interval }
    }

    /// Begins a round.
    pub fn begin(&self) -> (r: Vec<ScanEvent>)
        ensures
            r.deep_view() == seq![
                ScanEventView::RoundStarted { round: self.round },
                ScanEventView::Phase("scan round "@ + text::decimal_spec(self.round as nat)),
            ],
    {
        let mut events: Vec<ScanEvent> = Vec::new();
        proof {
            assert(events.deep_view() =~= seq![]);
        }
        push_event(&mut events, ScanEvent::RoundStarted { round: self.round });
        push_event(
            &mut events,
            ScanEvent::Phase(concat("scan round ", decimal(self.round).as_str())),
        );
        events
    }

    /// Says that a round failed.
    pub fn failed(&self, reason: &str) -> (r: ScanEvent)
        ensures
            r@ == ScanEventView::Warning(
                "scan round "@ + text::decimal_spec(self.round as nat) + " failed: "@ + reason@,
            ),
    {
        ScanEvent::Warning(
            concat4("scan round ", decimal(self.round).as_str(), " failed: ", reason),
        )
    }

    /// Ends a round, and announces the pause after it where there is one.
    pub fn finish(&mut self) -> (r: Option<ScanEvent>)
        ensures
            r.deep_view() == (match phases::idle_phase_spec(old(self).interval, old(self).round) {
                Some(phase) => Some(ScanEventView::Phase(phase)),
                None => None,
            }),
            final(self).interval == old(self).interval,
            final(self).round == (if old(self).round < u64::MAX {
                (old(self).round + 1) as u64
            } else {
                u64::MAX
            }),
    {
        let event = match idle_phase(self.interval, self.round) {
            Some(phase) => Some(ScanEvent::Phase(phase)),
            None => None,
        };
        if self.round < u64::MAX {
            self.round = self.round + 1;
        }
        event
    }
}

} // verus!
