//! Scan phase helpers.
//!
//! The scanner streams progressive updates while its phases are still running. These
//! helpers decide which phases run, for how long, and how they are announced.

use crate::addr::{IpAddr, Ipv4Net};
use crate::discovery::l2::L2Protocols;
use crate::probes::deep::ProbeOptions;
use crate::same::holds;
use crate::scanner::types::{ScanConfig, ScanConfigView, ScanEvent, ScanEventView};
use crate::text::{concat3, concat4, decimal, join, owned};
use crate::text;
use vstd::prelude::*;

verus! {

/// The shortest time, in milliseconds, that LLDP is listened for.
pub const DEEP_LLDP_LISTEN_TIMEOUT: u64 = 30_000;

/// The shortest time, in milliseconds, that CDP is listened for.
pub const CDP_LISTEN_TIMEOUT: u64 = 65_000;

/// The longer of two durations.
pub open spec fn longer(a: u64, b: u64) -> u64 {
    if a < b {
        b
    } else {
        a
    }
}

/// How long LLDP is listened for: neighbors advertise themselves twice a minute.
pub open spec fn lldp_window(config: ScanConfigView) -> u64 {
    if config.lldp {
        longer(config.timeout, DEEP_LLDP_LISTEN_TIMEOUT)
    } else {
        config.timeout
    }
}

/// How long CDP is listened for: neighbors advertise themselves once a minute.
pub open spec fn cdp_window(config: ScanConfigView) -> u64 {
    if config.cdp {
        longer(config.timeout, CDP_LISTEN_TIMEOUT)
    } else {
        config.timeout
    }
}

/// How long LLDP is listened for.
pub fn lldp_listen_timeout(config: &ScanConfig) -> (r: u64)
    ensures
        r == lldp_window(config@),
{
    if config.lldp && config.timeout < DEEP_LLDP_LISTEN_TIMEOUT {
        DEEP_LLDP_LISTEN_TIMEOUT
    } else {
        config.timeout
    }
}

/// How long CDP is listened for.
pub fn cdp_listen_timeout(config: &ScanConfig) -> (r: u64)
    ensures
        r == cdp_window(config@),
{
    if config.cdp && config.timeout < CDP_LISTEN_TIMEOUT {
        CDP_LISTEN_TIMEOUT
    } else {
        config.timeout
    }
}

/// A protocol that is listened for gets its whole advertisement interval, however
/// short the timeout is.
pub proof fn law_listening_spans_an_interval(config: ScanConfigView)
    ensures
        config.lldp ==> lldp_window(config) >= 30_000 && l2_window(config) >= lldp_window(config),
        config.cdp ==> cdp_window(config) >= 65_000 && l2_window(config) >= cdp_window(config),
{
}

/// The protocols that a scan listens for.
pub open spec fn l2_protocols_spec(config: ScanConfigView) -> L2Protocols {
    L2Protocols { lldp: config.lldp, cdp: config.cdp }
}

/// How long one listener for both protocols listens.
pub open spec fn l2_window(config: ScanConfigView) -> u64 {
    let a = if config.lldp {
        lldp_window(config)
    } else {
        0
    };
    if config.cdp {
        longer(a, cdp_window(config))
    } else {
        a
    }
}

/// The listener that a scan starts: the protocols and how long, where it listens for
/// any.
pub fn l2_discovery(config: &ScanConfig) -> (r: Option<(L2Protocols, u64)>)
    ensures
        r == (if config.lldp || config.cdp {
            Some((l2_protocols_spec(config@), l2_window(config@)))
        } else {
            None
        }),
{
    let protocols = L2Protocols { lldp: config.lldp, cdp: config.cdp };
    if !protocols.any() {
        return None;
    }
    let mut window: u64 = 0;
    if config.lldp {
        window = lldp_listen_timeout(config);
    }
    if config.cdp {
        let other: u64 = cdp_listen_timeout(config);
        if window < other {
            window = other;
        }
    }
    Some((protocols, window))
}

/// How the listener is announced.
pub open spec fn l2_phase_spec(protocols: L2Protocols, window: u64) -> Seq<char> {
    protocols.label_spec() + " discovery ("@ + text::decimal_spec(window as nat) + "ms)"@
}

/// Announces the listener.
pub fn l2_phase(protocols: L2Protocols, window: u64) -> (r: ScanEvent)
    ensures
        r@ == ScanEventView::Phase(l2_phase_spec(protocols, window)),
{
    ScanEvent::Phase(
        concat4(protocols.label(), " discovery (", decimal(window).as_str(), "ms)"),
    )
}

/// How a pause between rounds is announced; a pause of no length is none.
pub open spec fn idle_phase_spec(interval: u64, round: u64) -> Option<Seq<char>> {
    if interval == 0 {
        None
    } else {
        Some(
            "idle "@ + text::decimal_spec(interval as nat) + "ms after round "@ + text::decimal_spec(
                round as nat,
            ),
        )
    }
}

/// Announces a pause between rounds. A zero interval means to scan continuously: the
/// next round starts as soon as the previous one completes.
pub fn idle_phase(interval: u64, round: u64) -> (r: Option<String>)
    ensures
        r.deep_view() == idle_phase_spec(interval, round),
{
    if interval == 0 {
        None
    } else {
        Some(
            concat4(
                "idle ",
                decimal(interval).as_str(),
                "ms after round ",
                decimal(round).as_str(),
            ),
        )
    }
}

/// Turns the events of a scan of one interface into events of a scan of several.
pub struct EventForwarder {
    pub interface: String,
}

/// What becomes of an event, with the interface that is known before it: phases and
/// warnings name the interface, updates pass, and the rest stays inside.
pub open spec fn forwarded(interface: Seq<char>, event: ScanEventView) -> Option<ScanEventView> {
    match event {
        ScanEventView::Started { target, interface, .. } => Some(
            ScanEventView::Phase(interface + ": scanning "@ + target),
        ),
        ScanEventView::RoundStarted { .. } => None,
        ScanEventView::RoundFinished { .. } => None,
        ScanEventView::Phase(phase) => Some(ScanEventView::Phase(interface + ": "@ + phase)),
        ScanEventView::DeviceUpdated(device) => Some(ScanEventView::DeviceUpdated(device)),
        ScanEventView::Warning(warning) => Some(
            ScanEventView::Warning(interface + ": "@ + warning),
        ),
        ScanEventView::Finished { .. } => None,
    }
}

/// The interface that is known after an event.
pub open spec fn interface_after(interface: Seq<char>, event: ScanEventView) -> Seq<char> {
    match event {
        ScanEventView::Started { interface, .. } => interface,
        _ => interface,
    }
}

impl EventForwarder {
    /// A forwarder that has not heard which interface it forwards for.
    pub fn new() -> (r: Self)
        ensures
            r.interface@ == "?"@,
    {
        EventForwarder { interface: owned("?") }
    }

    /// Forwards an event, where it is one that the outer scan shows.
    pub fn forward(&mut self, event: ScanEvent) -> (r: Option<ScanEvent>)
        ensures
            r.deep_view() == forwarded(old(self).interface@, event@),
            final(self).interface@ == interface_after(old(self).interface@, event@),
    {
        match event {
            ScanEvent::Started { target, interface, .. } => {
                let phase = concat3(interface.as_str(), ": scanning ", target.as_str());
                self.interface = interface;
                Some(ScanEvent::Phase(phase))
            },
            ScanEvent::RoundStarted { .. } => None,
            ScanEvent::RoundFinished { .. } => None,
            ScanEvent::Phase(phase) => Some(
                ScanEvent::Phase(concat3(self.interface.as_str(), ": ", phase.as_str())),
            ),
            ScanEvent::DeviceUpdated(device) => Some(ScanEvent::DeviceUpdated(device)),
            ScanEvent::Warning(warning) => Some(
                ScanEvent::Warning(concat3(self.interface.as_str(), ": ", warning.as_str())),
            ),
            ScanEvent::Finished { .. } => None,
        }
    }
}

/// A list with a phase announced at its end, where it runs.
pub open spec fn phase_if(
    events: Seq<ScanEventView>,
    runs: bool,
    phase: Seq<char>,
) -> Seq<ScanEventView> {
    if runs {
        events.push(ScanEventView::Phase(phase))
    } else {
        events
    }
}

/// Announces a phase, where it runs.
pub fn push_phase(events: &mut Vec<ScanEvent>, runs: bool, phase: &str)
    ensures
        final(events).deep_view() == phase_if(old(events).deep_view(), runs, phase@),
{
    if runs {
        let ghost before = events.deep_view();
        let event = ScanEvent::Phase(owned(phase));
        let ghost view = event@;
        events.push(event);
        proof {
            assert(events.deep_view() =~= before.push(view));
        }
    }
}

/// The announcements of the multicast phase.
pub open spec fn multicast_phases(
    events: Seq<ScanEventView>,
    config: ScanConfigView,
) -> Seq<ScanEventView> {
    phase_if(
        phase_if(events, config.mdns, "mDNS/Bonjour enrichment"@),
        config.upnp,
        "UPnP/SSDP enrichment"@,
    )
}

/// The announcements of the name phase.
pub open spec fn name_phases(
    events: Seq<ScanEventView>,
    config: ScanConfigView,
) -> Seq<ScanEventView> {
    phase_if(
        phase_if(events, config.rdns, "reverse DNS enrichment"@),
        config.netbios,
        "NetBIOS enrichment"@,
    )
}

/// The announcements of the probe phase.
pub open spec fn probe_phases(
    events: Seq<ScanEventView>,
    config: ScanConfigView,
) -> Seq<ScanEventView> {
    let ports = config.deep || config.ssh;
    phase_if(
        phase_if(
            phase_if(events, ports, "deep port/banner enrichment"@),
            !ports && (config.http || config.tls),
            "HTTP/TLS enrichment"@,
        ),
        config.snmp,
        "SNMP system enrichment"@,
    )
}

/// Announces the multicast phase.
pub fn announce_multicast(events: &mut Vec<ScanEvent>, config: &ScanConfig)
    ensures
        final(events).deep_view() == multicast_phases(old(events).deep_view(), config@),
{
    push_phase(events, config.mdns, "mDNS/Bonjour enrichment");
    push_phase(events, config.upnp, "UPnP/SSDP enrichment");
}

/// Announces the name phase.
pub fn announce_names(events: &mut Vec<ScanEvent>, config: &ScanConfig)
    ensures
        final(events).deep_view() == name_phases(old(events).deep_view(), config@),
{
    push_phase(events, config.rdns, "reverse DNS enrichment");
    push_phase(events, config.netbios, "NetBIOS enrichment");
}

/// Announces the probe phase.
pub fn announce_probes(events: &mut Vec<ScanEvent>, config: &ScanConfig)
    ensures
        final(events).deep_view() == probe_phases(old(events).deep_view(), config@),
{
    let ports = config.deep || config.ssh;
    push_phase(events, ports, "deep port/banner enrichment");
    push_phase(events, !ports && (config.http || config.tls), "HTTP/TLS enrichment");
    push_phase(events, config.snmp, "SNMP system enrichment");
}

/// Which sources of a port probe a scan wants.
pub open spec fn probe_options_spec(config: ScanConfigView) -> ProbeOptions {
    ProbeOptions { deep: config.deep, http: config.http, tls: config.tls }
}

/// Which sources of a port probe a scan wants.
pub fn probe_options(config: &ScanConfig) -> (r: ProbeOptions)
    ensures
        r == probe_options_spec(config@),
{
    ProbeOptions { deep: config.deep, http: config.http, tls: config.tls }
}

/// A scan probes ports.
pub open spec fn probes_ports(config: ScanConfigView) -> bool {
    config.deep || config.ssh || config.http || config.tls
}

/// The address lies in the target network.
pub open spec fn in_target(target: Ipv4Net, ip: IpAddr) -> bool {
    match ip {
        IpAddr::V4(a) => target.contains_spec(a),
        IpAddr::V6(_) => false,
    }
}

/// Reports whether an address lies in the target network.
pub fn target_contains_ip(target: Ipv4Net, ip: IpAddr) -> (r: bool)
    requires
        target.valid(),
    ensures
        r == in_target(target, ip),
{
    match ip {
        IpAddr::V4(a) => target.contains(a),
        IpAddr::V6(_) => false,
    }
}

/// The target of a configuration, as it is shown.
pub open spec fn shown_target(config: ScanConfigView) -> Seq<char> {
    match config.target {
        Some(target) => target,
        None => "selected interface network"@,
    }
}

/// The targets of several configurations, each once.
pub open spec fn shown_targets(configs: Seq<ScanConfigView>) -> Seq<Seq<char>>
    decreases configs.len(),
{
    if configs.len() == 0 {
        seq![]
    } else {
        let before = shown_targets(configs.drop_last());
        let target = shown_target(configs.last());
        if before.contains(target) {
            before
        } else {
            before.push(target)
        }
    }
}

/// Sums up the targets of several configurations.
pub fn scan_target_summary(configs: &Vec<ScanConfig>) -> (r: String)
    ensures
        r@ == text::join_spec(shown_targets(configs.deep_view()), ","@),
{
    let ghost views = configs.deep_view();
    let mut targets: Vec<String> = Vec::new();
    let mut i: usize = 0;
    proof {
        assert(targets.deep_view() =~= seq![]);
    }
    while i < configs.len()
        invariant
            i <= configs@.len(),
            views == configs.deep_view(),
            targets.deep_view() == shown_targets(views.take(i as int)),
        decreases configs@.len() - i,
    {
        proof {
            assert(views.take(i + 1).drop_last() =~= views.take(i as int));
            assert(views.take(i + 1).last() == configs@[i as int]@);
        }
        let target = match &configs[i].target {
            Some(target) => target.clone(),
            None => owned("selected interface network"),
        };
        if !holds(&targets, &target) {
            let ghost before = targets.deep_view();
            let ghost view = target@;
            targets.push(target);
            proof {
                assert(targets.deep_view() =~= before.push(view));
            }
        }
        i = i + 1;
    }
    proof {
        assert(views.take(i as int) =~= views);
    }
    join(&targets, ",")
}

} // verus!
