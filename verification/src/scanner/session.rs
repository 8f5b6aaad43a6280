//! One scan of one interface, as a state machine.
//!
//! The session holds what the scan has found and decides what happens next. Its
//! surroundings carry out one action at a time, stream what they hear in the
//! meantime, and report the outcome; the session answers with the events to show and
//! the next action.

use crate::addr::{IpAddr, Ipv4Net};
use crate::dhcp::{DhcpLease, DhcpLeaseView};
use crate::discovery::l2::{L2Advertisement, L2AdvertisementView, L2Protocols};
use crate::discovery::{ArpHit, ArpHitView};
use crate::discovery;
use crate::enrich::mdns::{MdnsInfo, MdnsInfoView};
use crate::enrich::oui::lookup_vendor;
use crate::enrich::oui;
use crate::identity_rules::{apply_identity_rules, RuleDb, RuleDbView};
use crate::identity_rules;
use crate::model::{Device, DeviceView, ScanResult, ScanResultView, Timestamp};
use crate::net::{InterfaceInfo, InterfaceInfoView};
use crate::probes::deep::{PortProbe, PortProbeView};
use crate::probes::smb::{SmbInfo, SmbInfoView};
use crate::probes::snmp::{SnmpInfo, SnmpInfoView};
use crate::probes::upnp::{UpnpInfo, UpnpInfoView};
use crate::scanner::apply::{
    add_each_name, apply_deep_probes, apply_dhcp_lease, apply_mdns_info, apply_oui, apply_smb_info,
    apply_snmp_info, apply_upnp_info, fill_mac,
};
use crate::scanner::apply;
use crate::scanner::passive::{PassiveObservation, PassiveObservationView};
use crate::scanner::passive;
use crate::scanner::phases::{
    announce_multicast, announce_names, announce_probes, l2_discovery, l2_phase, probe_options,
    target_contains_ip,
};
use crate::scanner::phases;
use crate::scanner::roster::{addresses, upsert_device};
use crate::scanner::roster;
use crate::scanner::types::{ScanConfig, ScanConfigView, ScanEvent, ScanEventView};
use crate::store::merge_previous_scan;
use crate::store;
use crate::text::{concat, concat3, owned};
use crate::text_map::{TextMap, TextMapView};
use vstd::prelude::*;

verus! {

/// What one source says of one host.
pub enum HostUpdate {
    /// It answered for its address with this MAC address.
    Arp(String),
    /// It is this machine: its name, and the MAC address of the interface.
    Local(String, Option<String>),
    /// A lease.
    Lease(DhcpLease),
    /// What mDNS says.
    Mdns(MdnsInfo),
    /// What UPnP says.
    Upnp(UpnpInfo),
    /// The name that reverse DNS gives.
    Rdns(String),
    /// The names that the NetBIOS name service gives.
    Netbios(Vec<String>),
    /// What a port probe found.
    Probe(PortProbe),
    /// What SNMP says.
    Snmp(SnmpInfo),
    /// What SMB says.
    Smb(SmbInfo),
    /// What the host advertises of itself.
    Advertised(PassiveObservation),
}

/// The mathematical content of a [`HostUpdate`].
pub enum HostUpdateView {
    Arp(Seq<char>),
    Local(Seq<char>, Option<Seq<char>>),
    Lease(DhcpLeaseView),
    Mdns(MdnsInfoView),
    Upnp(UpnpInfoView),
    Rdns(Seq<char>),
    Netbios(Seq<Seq<char>>),
    Probe(PortProbeView),
    Snmp(SnmpInfoView),
    Smb(SmbInfoView),
    Advertised(PassiveObservationView),
}

impl View for HostUpdate {
    type V = HostUpdateView;

    open spec fn view(&self) -> HostUpdateView {
        match self {
            HostUpdate::Arp(mac) => HostUpdateView::Arp(mac@),
            HostUpdate::Local(name, mac) => HostUpdateView::Local(name@, mac.deep_view()),
            HostUpdate::Lease(lease) => HostUpdateView::Lease(lease@),
            HostUpdate::Mdns(info) => HostUpdateView::Mdns(info@),
            HostUpdate::Upnp(info) => HostUpdateView::Upnp(info@),
            HostUpdate::Rdns(name) => HostUpdateView::Rdns(name@),
            HostUpdate::Netbios(names) => HostUpdateView::Netbios(names.deep_view()),
            HostUpdate::Probe(probe) => HostUpdateView::Probe(probe@),
            HostUpdate::Snmp(info) => HostUpdateView::Snmp(info@),
            HostUpdate::Smb(info) => HostUpdateView::Smb(info@),
            HostUpdate::Advertised(o) => HostUpdateView::Advertised(o@),
        }
    }
}

/// Where a scan stands.
#[derive(Clone, Copy, Debug, PartialEq, Eq, Structural)]
pub enum ScanStage {
    /// The ARP sweep runs.
    Sweeping,
    /// The sweep failed and the neighbor table is read.
    ReadingTable,
    /// Leases are read.
    ReadingLeases,
    /// mDNS and UPnP run.
    Multicast,
    /// Reverse DNS and NetBIOS run.
    Naming,
    /// Port probes and SNMP run.
    Probing,
    /// SMB runs.
    Smb,
    /// The passive listener is awaited.
    ClosingL2,
    /// The earlier scan is read.
    LoadingCache,
    /// This scan is written.
    SavingCache,
    /// The scan is over.
    Done,
}

/// What the surroundings of a scan do next.
pub enum ScanAction {
    /// Nothing new: go on with what is running.
    Wait,
    /// Read the neighbor table.
    ReadTable,
    /// Read these lease files, or the usual ones when none is named.
    ReadLeases(Vec<String>),
    /// Run mDNS and UPnP, as far as they are wanted.
    Multicast { mdns: bool, upnp: bool },
    /// Ask reverse DNS and NetBIOS, as far as they are wanted, for these hosts.
    Names { ips: Vec<IpAddr>, rdns: bool, netbios: bool },
    /// Probe ports and SNMP, as far as they are wanted, on these hosts.
    Probes { ips: Vec<IpAddr>, ports: bool, snmp: bool },
    /// Run SMB on these hosts.
    Smb(Vec<IpAddr>),
    /// Await the passive listener.
    CloseL2,
    /// Read the earlier scan.
    LoadCache,
    /// Write this scan.
    SaveCache,
    /// Nothing is left to do.
    Finish,
}

/// The mathematical content of a [`ScanAction`].
pub enum ScanActionView {
    Wait,
    ReadTable,
    ReadLeases(Seq<Seq<char>>),
    Multicast { mdns: bool, upnp: bool },
    Names { ips: Seq<IpAddr>, rdns: bool, netbios: bool },
    Probes { ips: Seq<IpAddr>, ports: bool, snmp: bool },
    Smb(Seq<IpAddr>),
    CloseL2,
    LoadCache,
    SaveCache,
    Finish,
}

impl View for ScanAction {
    type V = ScanActionView;

    open spec fn view(&self) -> ScanActionView {
        match self {
            ScanAction::Wait => ScanActionView::Wait,
            ScanAction::ReadTable => ScanActionView::ReadTable,
            ScanAction::ReadLeases(paths) => ScanActionView::ReadLeases(paths.deep_view()),
            ScanAction::Multicast { mdns, upnp } => ScanActionView::Multicast {
                mdns: *mdns,
                upnp: *upnp,
            },
            ScanAction::Names { ips, rdns, netbios } => ScanActionView::Names {
                ips: ips@,
                rdns: *rdns,
                netbios: *netbios,
            },
            ScanAction::Probes { ips, ports, snmp } => ScanActionView::Probes {
                ips: ips@,
                ports: *ports,
                snmp: *snmp,
            },
            ScanAction::Smb(ips) => ScanActionView::Smb(ips@),
            ScanAction::CloseL2 => ScanActionView::CloseL2,
            ScanAction::LoadCache => ScanActionView::LoadCache,
            ScanAction::SaveCache => ScanActionView::SaveCache,
            ScanAction::Finish => ScanActionView::Finish,
        }
    }
}

/// What the surroundings of a scan report.
pub enum ScanInput {
    /// The sweep is over: the hosts that answered, or why it failed.
    Swept(Result<Vec<ArpHit>, String>),
    /// The hosts of the neighbor table.
    Table(Vec<ArpHit>),
    /// The leases, and what did not work.
    Leases(Vec<DhcpLease>, Vec<String>),
    /// Something was learned of a host.
    Update(IpAddr, HostUpdate),
    /// A neighbor advertised itself.
    Advertised(L2Advertisement),
    /// mDNS and UPnP are over; why each failed, where it did.
    MulticastDone { mdns: Option<String>, upnp: Option<String> },
    /// Reverse DNS and NetBIOS are over.
    NamesDone,
    /// Port probes and SNMP are over.
    ProbesDone,
    /// SMB is over.
    SmbDone,
    /// The passive listener is over; why it failed, where it did.
    L2Closed(Option<String>),
    /// The earlier scan, or why it could not be read.
    CacheLoaded(Result<Vec<Device>, String>),
    /// This scan was written; why not, where it was not.
    CacheSaved(Option<String>),
}

/// The mathematical content of a [`ScanInput`].
pub enum ScanInputView {
    Swept(Result<Seq<ArpHitView>, Seq<char>>),
    Table(Seq<ArpHitView>),
    Leases(Seq<DhcpLeaseView>, Seq<Seq<char>>),
    Update(IpAddr, HostUpdateView),
    Advertised(L2AdvertisementView),
    MulticastDone { mdns: Option<Seq<char>>, upnp: Option<Seq<char>> },
    NamesDone,
    ProbesDone,
    SmbDone,
    L2Closed(Option<Seq<char>>),
    CacheLoaded(Result<Seq<DeviceView>, Seq<char>>),
    CacheSaved(Option<Seq<char>>),
}

impl View for ScanInput {
    type V = ScanInputView;

    open spec fn view(&self) -> ScanInputView {
        match self {
            ScanInput::Swept(result) => ScanInputView::Swept(swept_view(*result)),
            ScanInput::Table(hits) => ScanInputView::Table(hits.deep_view()),
            ScanInput::Leases(leases, warnings) => ScanInputView::Leases(
                leases.deep_view(),
                warnings.deep_view(),
            ),
            ScanInput::Update(ip, update) => ScanInputView::Update(*ip, update@),
            ScanInput::Advertised(advertisement) => ScanInputView::Advertised(advertisement@),
            ScanInput::MulticastDone { mdns, upnp } => ScanInputView::MulticastDone {
                mdns: mdns.deep_view(),
                upnp: upnp.deep_view(),
            },
            ScanInput::NamesDone => ScanInputView::NamesDone,
            ScanInput::ProbesDone => ScanInputView::ProbesDone,
            ScanInput::SmbDone => ScanInputView::SmbDone,
            ScanInput::L2Closed(e) => ScanInputView::L2Closed(e.deep_view()),
            ScanInput::CacheLoaded(result) => ScanInputView::CacheLoaded(loaded_view(*result)),
            ScanInput::CacheSaved(e) => ScanInputView::CacheSaved(e.deep_view()),
        }
    }
}

/// The content of the outcome of a sweep.
pub open spec fn swept_view(r: Result<Vec<ArpHit>, String>) -> Result<Seq<ArpHitView>, Seq<char>> {
    match r {
        Ok(hits) => Ok(hits.deep_view()),
        Err(e) => Err(e@),
    }
}

/// The content of an earlier scan, or of why there is none.
pub open spec fn loaded_view(r: Result<Vec<Device>, String>) -> Result<Seq<DeviceView>, Seq<char>> {
    match r {
        Ok(devices) => Ok(devices.deep_view()),
        Err(e) => Err(e@),
    }
}

/// What a scan knows before it starts.
pub struct ScanContext {
    pub config: ScanConfig,
    pub interface: InterfaceInfo,
    pub target: Ipv4Net,
    pub oui_db: TextMap,
    pub rules: RuleDb,
    pub local_name: Option<String>,
    pub scanned_at: Timestamp,
    pub emit_finished: bool,
}

/// The mathematical content of a [`ScanContext`].
pub struct ScanContextView {
    pub config: ScanConfigView,
    pub interface: InterfaceInfoView,
    pub target: Ipv4Net,
    pub oui_db: TextMapView,
    pub rules: RuleDbView,
    pub local_name: Option<Seq<char>>,
    pub scanned_at: Timestamp,
    pub emit_finished: bool,
}

impl View for ScanContext {
    type V = ScanContextView;

    open spec fn view(&self) -> ScanContextView {
        ScanContextView {
            config: self.config@,
            interface: self.interface@,
            target: self.target,
            oui_db: self.oui_db@,
            rules: self.rules@,
            local_name: self.local_name.deep_view(),
            scanned_at: self.scanned_at,
            emit_finished: self.emit_finished,
        }
    }
}

impl ScanContextView {
    /// The vendor table, where vendors are wanted.
    pub open spec fn vendors(self) -> Option<TextMapView> {
        if self.config.oui {
            Some(self.oui_db)
        } else {
            None
        }
    }

    /// The device after what one source says of it.
    #[verifier::opaque]
    pub open spec fn applied(self, d: DeviceView, update: HostUpdateView) -> DeviceView {
        match update {
            HostUpdateView::Arp(mac) => DeviceView {
                mac: Some(mac),
                vendor: if self.config.oui {
                    oui::vendor_spec(self.oui_db, mac)
                } else {
                    d.vendor
                },
                ..d
            },
            HostUpdateView::Local(name, mac) => apply::filled_mac(d, mac).add_name(name, "local"@, 95),
            HostUpdateView::Lease(lease) => apply::apply_dhcp_lease_spec(d, lease, self.vendors()),
            HostUpdateView::Mdns(info) => apply::apply_mdns_info_spec(d, info),
            HostUpdateView::Upnp(info) => apply::apply_upnp_info_spec(d, info),
            HostUpdateView::Rdns(name) => d.add_name(name, "rdns"@, 65),
            HostUpdateView::Netbios(names) => apply::each_name(d, names, "netbios"@, 80).set_os(
                "Windows/SMB capable"@,
                "netbios"@,
                45,
            ),
            HostUpdateView::Probe(probe) => apply::each_probe(
                d,
                seq![probe],
                phases::probe_options_spec(self.config),
            ),
            HostUpdateView::Snmp(info) => apply::apply_snmp_info_spec(d, info),
            HostUpdateView::Smb(info) => apply::apply_smb_info_spec(d, info),
            HostUpdateView::Advertised(o) => o.applied_to(d, self.vendors()),
        }
    }

    /// The device after what one source said of it just now: seen now, and with the
    /// rules applied. Rules run after every update so that a row can appear from ARP,
    /// gain a name from mDNS, and gain a type from UPnP while the scan still runs.
    pub open spec fn observed(
        self,
        d: DeviceView,
        update: HostUpdateView,
        now: Timestamp,
    ) -> DeviceView {
        identity_rules::identity_rules_spec(
            DeviceView { last_seen: now, ..self.applied(d, update) },
            self.rules,
        )
    }
}

impl ScanContext {
    /// Adds what one source says to a device.
    fn apply(&self, device: &mut Device, update: HostUpdate)
        ensures
            final(device)@ == self@.applied(old(device)@, update@),
            final(device)@.ip == old(device)@.ip,
            final(device)@.interface == old(device)@.interface,
    {
        proof {
            reveal(ScanContextView::applied);
            reveal(DeviceView::extended_by);
            reveal(DeviceView::add_name);
        }
        let vendors: Option<&TextMap> = if self.config.oui {
            Some(&self.oui_db)
        } else {
            None
        };
        match update {
            HostUpdate::Arp(mac) => {
                if self.config.oui {
                    device.vendor = lookup_vendor(mac.as_str(), &self.oui_db);
                }
                device.mac = Some(mac);
            },
            HostUpdate::Local(name, mac) => {
                fill_mac(device, mac);
                device.add_name(name.as_str(), "local", 95);
            },
            HostUpdate::Lease(lease) => apply_dhcp_lease(device, lease, vendors),
            HostUpdate::Mdns(info) => apply_mdns_info(device, info),
            HostUpdate::Upnp(info) => apply_upnp_info(device, info),
            HostUpdate::Rdns(name) => device.add_name(name.as_str(), "rdns", 65),
            HostUpdate::Netbios(names) => {
                add_each_name(device, &names, "netbios", 80);
                device.set_os_guess("Windows/SMB capable", "netbios", 45);
            },
            HostUpdate::Probe(probe) => {
                let mut probes: Vec<PortProbe> = Vec::new();
                let ghost view = probe@;
                probes.push(probe);
                proof {
                    assert(probes.deep_view() =~= seq![view]);
                }
                apply_deep_probes(device, probes, probe_options(&self.config));
            },
            HostUpdate::Snmp(info) => apply_snmp_info(device, info),
            HostUpdate::Smb(info) => apply_smb_info(device, info),
            HostUpdate::Advertised(o) => o.apply_to_device(device, vendors),
        }
    }

    /// Adds what one source said to a device just now.
    fn observe(&self, device: &mut Device, update: HostUpdate, now: Timestamp)
        ensures
            final(device)@ == self@.observed(old(device)@, update@, now),
            final(device)@.ip == old(device)@.ip,
            final(device)@.interface == old(device)@.interface,
    {
        self.apply(device, update);
        device.last_seen = now;
        apply_identity_rules(device, &self.rules);
        proof {
            reveal(DeviceView::extended_by);
        }
    }
}

/// A scan of one interface.
pub struct ScanSession {
    pub context: ScanContext,
    pub devices: Vec<Device>,
    pub warnings: Vec<String>,
    pub stage: ScanStage,
}

/// The mathematical content of a [`ScanSession`].
#[verifier::ext_equal]
pub struct ScanSessionView {
    pub context: ScanContextView,
    pub devices: Seq<DeviceView>,
    pub warnings: Seq<Seq<char>>,
    pub stage: ScanStage,
}

impl View for ScanSession {
    type V = ScanSessionView;

    open spec fn view(&self) -> ScanSessionView {
        ScanSessionView {
            context: self.context@,
            devices: self.devices.deep_view(),
            warnings: self.warnings.deep_view(),
            stage: self.stage,
        }
    }
}

/// A session and the events so far.
pub type Run = (ScanSessionView, Seq<ScanEventView>);

/// Anyone on the link may answer a multicast question, so that an answer can come from
/// outside the target network.
pub open spec fn from_multicast(update: HostUpdateView) -> bool {
    update is Mdns || update is Upnp
}

/// The events of several device updates.
pub open spec fn updates(devices: Seq<DeviceView>) -> Seq<ScanEventView> {
    devices.map_values(|d: DeviceView| ScanEventView::DeviceUpdated(d))
}

impl ScanSessionView {
    /// The target is a network, and the devices stand by address.
    pub open spec fn valid(self) -> bool {
        self.context.target.valid() && roster::by_address(self.devices)
    }

    /// The device lies in the target network and belongs to the scanned interface.
    pub open spec fn in_place(self, d: DeviceView) -> bool {
        phases::in_target(self.context.target, d.ip) && d.interface == Some(
            self.context.interface.name,
        )
    }

    /// Every device is one of the target network and of the scanned interface.
    pub open spec fn within_target(self) -> bool {
        forall|i: int| 0 <= i < self.devices.len() ==> self.in_place(#[trigger] self.devices[i])
    }

    /// A report that names hosts of the target network only: answers to the sweep and
    /// neighbors from there, and what was learned of a host that is known. Leases,
    /// multicast answers, and advertisements may come from anywhere.
    pub open spec fn may_report(self, input: ScanInputView) -> bool {
        match input {
            ScanInputView::Swept(Ok(hits)) => discovery::in_range(self.context.target, hits),
            ScanInputView::Table(hits) => discovery::in_range(self.context.target, hits),
            ScanInputView::Update(ip, update) => from_multicast(update) || roster::ip_place(
                self.devices,
                ip,
            ) < self.devices.len(),
            _ => true,
        }
    }

    /// What one source said of one host just now.
    #[verifier::opaque]
    pub open spec fn updated(
        self,
        events: Seq<ScanEventView>,
        ip: IpAddr,
        update: HostUpdateView,
        now: Timestamp,
    ) -> Run {
        let list = roster::with_device(
            self.devices,
            ip,
            self.context.scanned_at,
            self.context.interface.name,
        );
        let k = roster::ip_place(list, ip);
        let d = self.context.observed(list[k], update, now);
        (
            ScanSessionView { devices: list.update(k, d), ..self },
            events.push(ScanEventView::DeviceUpdated(d)),
        )
    }

    /// Several hosts answered for their addresses.
    pub open spec fn with_hits(
        self,
        events: Seq<ScanEventView>,
        hits: Seq<ArpHitView>,
        now: Timestamp,
    ) -> Run
        decreases hits.len(),
    {
        if hits.len() == 0 {
            (self, events)
        } else {
            let (s, e) = self.with_hits(events, hits.drop_last(), now);
            s.updated(e, IpAddr::V4(hits.last().ip), HostUpdateView::Arp(hits.last().mac), now)
        }
    }

    /// Several leases. Lease files are often host-global rather than per-interface, so
    /// only those within the target network count.
    pub open spec fn with_leases(
        self,
        events: Seq<ScanEventView>,
        leases: Seq<DhcpLeaseView>,
        now: Timestamp,
    ) -> Run
        decreases leases.len(),
    {
        if leases.len() == 0 {
            (self, events)
        } else {
            let (s, e) = self.with_leases(events, leases.drop_last(), now);
            if phases::in_target(self.context.target, leases.last().ip) {
                s.updated(e, leases.last().ip, HostUpdateView::Lease(leases.last()), now)
            } else {
                (s, e)
            }
        }
    }

    /// An advertisement that is about the hosts at several addresses.
    pub open spec fn with_advertised(
        self,
        events: Seq<ScanEventView>,
        ips: Seq<IpAddr>,
        o: PassiveObservationView,
        now: Timestamp,
    ) -> Run
        decreases ips.len(),
    {
        if ips.len() == 0 {
            (self, events)
        } else {
            let (s, e) = self.with_advertised(events, ips.drop_last(), o, now);
            s.updated(e, ips.last(), HostUpdateView::Advertised(o), now)
        }
    }

    /// Something did not work.
    #[verifier::opaque]
    pub open spec fn warned(self, events: Seq<ScanEventView>, warning: Seq<char>) -> Run {
        (
            ScanSessionView { warnings: self.warnings.push(warning), ..self },
            events.push(ScanEventView::Warning(warning)),
        )
    }

    /// Several things did not work.
    pub open spec fn with_warnings(
        self,
        events: Seq<ScanEventView>,
        warnings: Seq<Seq<char>>,
    ) -> Run
        decreases warnings.len(),
    {
        if warnings.len() == 0 {
            (self, events)
        } else {
            let (s, e) = self.with_warnings(events, warnings.drop_last());
            s.warned(e, warnings.last())
        }
    }

    /// Something did not work, where there is a reason.
    #[verifier::opaque]
    pub open spec fn warned_if(
        self,
        events: Seq<ScanEventView>,
        text: Seq<char>,
        reason: Option<Seq<char>>,
    ) -> Run {
        match reason {
            Some(e) => self.warned(events, text + e),
            None => (self, events),
        }
    }

    /// The rules are applied to every device, and each is shown.
    #[verifier::opaque]
    pub open spec fn snapshot(self, events: Seq<ScanEventView>) -> Run {
        let list = self.devices.map_values(
            |d: DeviceView| identity_rules::identity_rules_spec(d, self.context.rules),
        );
        (ScanSessionView { devices: list, ..self }, events + updates(list))
    }

    /// This machine is added, where it is within the target network.
    #[verifier::opaque]
    pub open spec fn with_self(self, events: Seq<ScanEventView>, now: Timestamp) -> Run {
        let interface = self.context.interface;
        if self.context.target.contains_spec(interface.ip) {
            let name = match self.context.local_name {
                Some(name) => name,
                None => interface.name,
            };
            self.updated(
                events,
                IpAddr::V4(interface.ip),
                HostUpdateView::Local(name, interface.mac),
                now,
            )
        } else {
            (self, events)
        }
    }

    /// Vendors are looked up, where they are wanted.
    #[verifier::opaque]
    pub open spec fn vendored(self) -> ScanSessionView {
        if self.context.config.oui {
            ScanSessionView {
                devices: apply::with_vendors(self.devices, self.context.oui_db),
                ..self
            }
        } else {
            self
        }
    }

    /// The hosts that exist are known: this machine is added, vendors are looked up,
    /// and every device is shown.
    pub open spec fn discovered(self, events: Seq<ScanEventView>, now: Timestamp) -> Run {
        let (s, e) = self.with_self(events, now);
        s.vendored().snapshot(e)
    }

    /// The passive listener that the scan starts.
    pub open spec fn listener(self) -> Option<(L2Protocols, u64)> {
        if self.context.config.lldp || self.context.config.cdp {
            Some((phases::l2_protocols_spec(self.context.config), phases::l2_window(self.context.config)))
        } else {
            None
        }
    }

    /// The events with the announcement of the listener.
    pub open spec fn announced(self, events: Seq<ScanEventView>) -> Seq<ScanEventView> {
        match self.listener() {
            Some((protocols, window)) => events.push(
                ScanEventView::Phase(phases::l2_phase_spec(protocols, window)),
            ),
            None => events,
        }
    }

    /// The hosts that show an SMB service on its port.
    pub open spec fn smb_hosts(self) -> Seq<IpAddr> {
        roster::addresses_spec(self.devices.filter(smb_shown()))
    }

    /// Reading leases comes next, where they are wanted; else multicast.
    #[verifier::opaque]
    pub open spec fn to_leases(self, events: Seq<ScanEventView>) -> (
        ScanSessionView,
        Seq<ScanEventView>,
        ScanActionView,
    ) {
        if self.context.config.dhcp {
            (
                ScanSessionView { stage: ScanStage::ReadingLeases, ..self },
                events.push(ScanEventView::Phase("DHCP lease enrichment"@)),
                ScanActionView::ReadLeases(self.context.config.dhcp_paths),
            )
        } else {
            self.to_multicast(events)
        }
    }

    /// Multicast comes next.
    #[verifier::opaque]
    pub open spec fn to_multicast(self, events: Seq<ScanEventView>) -> (
        ScanSessionView,
        Seq<ScanEventView>,
        ScanActionView,
    ) {
        (
            ScanSessionView { stage: ScanStage::Multicast, ..self },
            phases::multicast_phases(events, self.context.config),
            ScanActionView::Multicast {
                mdns: self.context.config.mdns,
                upnp: self.context.config.upnp,
            },
        )
    }

    /// Names come next.
    #[verifier::opaque]
    pub open spec fn to_names(self, events: Seq<ScanEventView>) -> (
        ScanSessionView,
        Seq<ScanEventView>,
        ScanActionView,
    ) {
        (
            ScanSessionView { stage: ScanStage::Naming, ..self },
            phases::name_phases(events, self.context.config),
            ScanActionView::Names {
                ips: roster::addresses_spec(self.devices),
                rdns: self.context.config.rdns,
                netbios: self.context.config.netbios,
            },
        )
    }

    /// Probes come next.
    #[verifier::opaque]
    pub open spec fn to_probes(self, events: Seq<ScanEventView>) -> (
        ScanSessionView,
        Seq<ScanEventView>,
        ScanActionView,
    ) {
        (
            ScanSessionView { stage: ScanStage::Probing, ..self },
            phases::probe_phases(events, self.context.config),
            ScanActionView::Probes {
                ips: roster::addresses_spec(self.devices),
                ports: phases::probes_ports(self.context.config),
                snmp: self.context.config.snmp,
            },
        )
    }

    /// SMB comes next, where it is wanted and some host shows it. A listening port only
    /// proves reachability; the negotiation adds what tells Windows from Samba.
    #[verifier::opaque]
    pub open spec fn to_smb(self, events: Seq<ScanEventView>) -> (
        ScanSessionView,
        Seq<ScanEventView>,
        ScanActionView,
    ) {
        if self.context.config.smb && self.smb_hosts().len() > 0 {
            (
                ScanSessionView { stage: ScanStage::Smb, ..self },
                events.push(ScanEventView::Phase("SMB fingerprinting"@)),
                ScanActionView::Smb(self.smb_hosts()),
            )
        } else {
            self.to_close(events)
        }
    }

    /// The passive listener is awaited, where one was started.
    #[verifier::opaque]
    pub open spec fn to_close(self, events: Seq<ScanEventView>) -> (
        ScanSessionView,
        Seq<ScanEventView>,
        ScanActionView,
    ) {
        if self.listener() is Some {
            (
                ScanSessionView { stage: ScanStage::ClosingL2, ..self },
                events,
                ScanActionView::CloseL2,
            )
        } else {
            self.to_cache(events)
        }
    }

    /// The earlier scan is read, where there is a cache.
    #[verifier::opaque]
    pub open spec fn to_cache(self, events: Seq<ScanEventView>) -> (
        ScanSessionView,
        Seq<ScanEventView>,
        ScanActionView,
    ) {
        if self.context.config.cache_enabled {
            (
                ScanSessionView { stage: ScanStage::LoadingCache, ..self },
                events.push(ScanEventView::Phase("cache merge"@)),
                ScanActionView::LoadCache,
            )
        } else {
            self.to_done(events)
        }
    }

    /// The scan is over, and says so where that is wanted.
    #[verifier::opaque]
    pub open spec fn to_done(self, events: Seq<ScanEventView>) -> (
        ScanSessionView,
        Seq<ScanEventView>,
        ScanActionView,
    ) {
        (
            ScanSessionView { stage: ScanStage::Done, ..self },
            if self.context.emit_finished {
                events.push(
                    ScanEventView::Finished { devices: self.devices, warnings: self.warnings },
                )
            } else {
                events
            },
            ScanActionView::Finish,
        )
    }

    /// What is learned of a host counts while the phases that ask hosts run.
    pub open spec fn learning(self) -> bool {
        self.stage == ScanStage::Multicast || self.stage == ScanStage::Naming || self.stage
            == ScanStage::Probing || self.stage == ScanStage::Smb
    }

    /// An advertisement counts from when the listener starts until it is awaited.
    pub open spec fn listening(self) -> bool {
        self.listener() is Some && (self.learning() || self.stage == ScanStage::ReadingLeases
            || self.stage == ScanStage::ClosingL2)
    }

    /// A neighbor advertised itself.
    #[verifier::opaque]
    pub open spec fn heard(
        self,
        events: Seq<ScanEventView>,
        advertisement: L2AdvertisementView,
        now: Timestamp,
    ) -> Run {
        let o = PassiveObservationView::from_advertisement(advertisement, now);
        self.with_advertised(
            events,
            o.target_ips(self.devices, seq![self.context.target]),
            o,
            now,
        )
    }

    /// Nothing changes.
    pub open spec fn unchanged(self) -> (
        ScanSessionView,
        Seq<ScanEventView>,
        ScanActionView,
    ) {
        (self, Seq::empty(), ScanActionView::Wait)
    }

    /// The sweep is over.
    #[verifier::opaque]
    pub open spec fn on_swept(
        self,
        result: Result<Seq<ArpHitView>, Seq<char>>,
        now: Timestamp,
    ) -> (
        ScanSessionView,
        Seq<ScanEventView>,
        ScanActionView,
    ) {
        if self.stage != ScanStage::Sweeping {
            self.unchanged()
        } else {
            match result {
                Ok(hits) => {
                    let (s, e) = self.with_hits(Seq::empty(), hits, now);
                    s.after_discovery(e, now)
                },
                Err(reason) => {
                    let (s, e) = self.warned(
                        Seq::empty(),
                        "ARP sweep failed ("@ + reason + "); falling back to the OS ARP table"@,
                    );
                    (
                        ScanSessionView { stage: ScanStage::ReadingTable, ..s },
                        e,
                        ScanActionView::ReadTable,
                    )
                },
            }
        }
    }

    /// The neighbor table was read.
    #[verifier::opaque]
    pub open spec fn on_table(self, hits: Seq<ArpHitView>, now: Timestamp) -> (
        ScanSessionView,
        Seq<ScanEventView>,
        ScanActionView,
    ) {
        if self.stage != ScanStage::ReadingTable {
            self.unchanged()
        } else {
            let (s, e) = self.with_hits(Seq::empty(), hits, now);
            s.after_discovery(e, now)
        }
    }

    /// The leases were read.
    #[verifier::opaque]
    pub open spec fn on_leases(
        self,
        leases: Seq<DhcpLeaseView>,
        warnings: Seq<Seq<char>>,
        now: Timestamp,
    ) -> (
        ScanSessionView,
        Seq<ScanEventView>,
        ScanActionView,
    ) {
        if self.stage != ScanStage::ReadingLeases {
            self.unchanged()
        } else {
            let (s, e) = self.with_warnings(Seq::empty(), warnings);
            let (s, e) = s.with_leases(e, leases, now);
            s.to_multicast(e)
        }
    }

    /// Something was learned of a host. Multicast answers count where the host lies in
    /// the target network.
    #[verifier::opaque]
    pub open spec fn on_update(self, ip: IpAddr, update: HostUpdateView, now: Timestamp) -> (
        ScanSessionView,
        Seq<ScanEventView>,
        ScanActionView,
    ) {
        if !self.learning() || (from_multicast(update) && !phases::in_target(
            self.context.target,
            ip,
        )) {
            self.unchanged()
        } else {
            let (s, e) = self.updated(Seq::empty(), ip, update, now);
            (s, e, ScanActionView::Wait)
        }
    }

    /// A neighbor advertised itself.
    #[verifier::opaque]
    pub open spec fn on_advertised(self, advertisement: L2AdvertisementView, now: Timestamp) -> (
        ScanSessionView,
        Seq<ScanEventView>,
        ScanActionView,
    ) {
        if !self.listening() {
            self.unchanged()
        } else {
            let (s, e) = self.heard(Seq::empty(), advertisement, now);
            (s, e, ScanActionView::Wait)
        }
    }

    /// mDNS and UPnP are over.
    #[verifier::opaque]
    pub open spec fn on_multicast_done(
        self,
        mdns: Option<Seq<char>>,
        upnp: Option<Seq<char>>,
    ) -> (
        ScanSessionView,
        Seq<ScanEventView>,
        ScanActionView,
    ) {
        if self.stage != ScanStage::Multicast {
            self.unchanged()
        } else {
            let (s, e) = self.warned_if(Seq::empty(), "mDNS enrichment failed: "@, mdns);
            let (s, e) = s.warned_if(e, "UPnP/SSDP enrichment failed: "@, upnp);
            s.to_names(e)
        }
    }

    /// The passive listener is over.
    #[verifier::opaque]
    pub open spec fn on_l2_closed(self, reason: Option<Seq<char>>) -> (
        ScanSessionView,
        Seq<ScanEventView>,
        ScanActionView,
    ) {
        if self.stage != ScanStage::ClosingL2 {
            self.unchanged()
        } else {
            let (s, e) = self.warned_if(Seq::empty(), "L2 passive discovery failed: "@, reason);
            s.to_cache(e)
        }
    }

    /// The earlier scan was read.
    #[verifier::opaque]
    pub open spec fn on_cache_loaded(self, result: Result<Seq<DeviceView>, Seq<char>>) -> (
        ScanSessionView,
        Seq<ScanEventView>,
        ScanActionView,
    ) {
        if self.stage != ScanStage::LoadingCache {
            self.unchanged()
        } else {
            match result {
                Ok(previous) => {
                    let (s, e) = self.with_cache(previous).snapshot(Seq::empty());
                    (
                        ScanSessionView { stage: ScanStage::SavingCache, ..s },
                        e,
                        ScanActionView::SaveCache,
                    )
                },
                Err(reason) => {
                    let (s, e) = self.warned(
                        Seq::empty(),
                        "failed to load scan cache: "@ + reason,
                    );
                    s.to_done(e)
                },
            }
        }
    }

    /// This scan was written.
    #[verifier::opaque]
    pub open spec fn on_cache_saved(self, reason: Option<Seq<char>>) -> (
        ScanSessionView,
        Seq<ScanEventView>,
        ScanActionView,
    ) {
        if self.stage != ScanStage::SavingCache {
            self.unchanged()
        } else {
            let (s, e) = self.warned_if(Seq::empty(), "failed to save scan cache: "@, reason);
            s.to_done(e)
        }
    }

    /// The session after what its surroundings report, the events to show, and the
    /// next action. What does not belong to the stage changes nothing.
    pub open spec fn step(self, input: ScanInputView, now: Timestamp) -> (
        ScanSessionView,
        Seq<ScanEventView>,
        ScanActionView,
    ) {
        match input {
            ScanInputView::Swept(result) => self.on_swept(result, now),
            ScanInputView::Table(hits) => self.on_table(hits, now),
            ScanInputView::Leases(leases, warnings) => self.on_leases(leases, warnings, now),
            ScanInputView::Update(ip, update) => self.on_update(ip, update, now),
            ScanInputView::Advertised(advertisement) => self.on_advertised(advertisement, now),
            ScanInputView::MulticastDone { mdns, upnp } => self.on_multicast_done(mdns, upnp),
            ScanInputView::NamesDone => if self.stage == ScanStage::Naming {
                self.to_probes(Seq::empty())
            } else {
                self.unchanged()
            },
            ScanInputView::ProbesDone => if self.stage == ScanStage::Probing {
                self.to_smb(Seq::empty())
            } else {
                self.unchanged()
            },
            ScanInputView::SmbDone => if self.stage == ScanStage::Smb {
                self.to_close(Seq::empty())
            } else {
                self.unchanged()
            },
            ScanInputView::L2Closed(reason) => self.on_l2_closed(reason),
            ScanInputView::CacheLoaded(result) => self.on_cache_loaded(result),
            ScanInputView::CacheSaved(reason) => self.on_cache_saved(reason),
        }
    }

    /// The hosts that exist are known, and what comes after that.
    #[verifier::opaque]
    pub open spec fn after_discovery(self, events: Seq<ScanEventView>, now: Timestamp) -> (
        ScanSessionView,
        Seq<ScanEventView>,
        ScanActionView,
    ) {
        let (s, e) = self.discovered(events, now);
        s.to_leases(s.announced(e))
    }

    /// The devices with what the earlier scan knows of them.
    #[verifier::opaque]
    pub open spec fn with_cache(self, previous: Seq<DeviceView>) -> ScanSessionView {
        ScanSessionView { devices: store::merged_scan(self.devices, previous), ..self }
    }

    /// The session before anything is reported.
    pub open spec fn start(context: ScanContextView) -> ScanSessionView {
        ScanSessionView { context, devices: seq![], warnings: seq![], stage: ScanStage::Sweeping }
    }
}

/// The device shows a service on the SMB port.
pub open spec fn shows_smb(d: DeviceView) -> bool {
    exists|i: int| 0 <= i < d.services.len() && (#[trigger] d.services[i]).port == Some(445u16)
}

/// The devices that show a service on the SMB port.
pub open spec fn smb_shown() -> spec_fn(DeviceView) -> bool {
    |d: DeviceView| shows_smb(d)
}

/// Reports whether a device shows a service on the SMB port.
fn device_shows_smb(device: &Device) -> (r: bool)
    ensures
        r == shows_smb(device@),
{
    let ghost views = device.services.deep_view();
    let mut i: usize = 0;
    while i < device.services.len()
        invariant
            i <= device.services@.len(),
            views == device.services.deep_view(),
            views == device@.services,
            forall|k: int| 0 <= k < i ==> (#[trigger] views[k]).port != Some(445u16),
        decreases device.services@.len() - i,
    {
        proof {
            assert(views[i as int] == device.services@[i as int]@);
        }
        if let Some(port) = device.services[i].port {
            if port == 445 {
                proof {
                    assert(device@.services[i as int].port == Some(445u16));
                }
                return true;
            }
        }
        i = i + 1;
    }
    false
}

/// Appends an event.
pub fn push_event(events: &mut Vec<ScanEvent>, event: ScanEvent)
    ensures
        final(events).deep_view() == old(events).deep_view().push(event@),
{
    let ghost before = events.deep_view();
    let ghost view = event@;
    events.push(event);
    proof {
        assert(events.deep_view() =~= before.push(view));
    }
}

/// What the session answers: the events to show, the passive listener to start, and
/// the next action.
pub struct ScanStep {
    pub events: Vec<ScanEvent>,
    pub listen: Option<(L2Protocols, u64)>,
    pub action: ScanAction,
}

impl ScanSession {
    /// A session before anything is reported, and the events that begin it.
    pub fn start(context: ScanContext) -> (r: (Self, Vec<ScanEvent>))
        requires
            context.target.valid(),
        ensures
            r.0@ == ScanSessionView::start(context@),
            r.0@.valid(),
            r.1.deep_view() == seq![
                ScanEventView::Started {
                    target: context.target.text_spec(),
                    interface: context@.interface.name,
                    profile: context@.config.profile,
                },
                ScanEventView::Phase("ARP discovery"@),
            ],
    {
        let mut events: Vec<ScanEvent> = Vec::new();
        proof {
            assert(events.deep_view() =~= seq![]);
        }
        push_event(
            &mut events,
            ScanEvent::Started {
                target: context.target.text(),
                interface: context.interface.name.clone(),
                profile: context.config.profile,
            },
        );
        push_event(&mut events, ScanEvent::Phase(owned("ARP discovery")));
        let session = ScanSession {
            context,
            devices: Vec::new(),
            warnings: Vec::new(),
            stage: ScanStage::Sweeping,
        };
        proof {
            assert(session.devices.deep_view() =~= seq![]);
            assert(session.warnings.deep_view() =~= seq![]);
        }
        (session, events)
    }

    /// A host answered while the sweep still runs: how it is shown. It is added when
    /// the sweep is over.
    pub fn preview(&self, hit: &ArpHit, now: Timestamp) -> (r: ScanEvent)
        ensures
            r@ == ScanEventView::DeviceUpdated(
                self@.context.observed(
                    roster::fresh_device(
                        IpAddr::V4(hit.ip),
                        self@.context.scanned_at,
                        self@.context.interface.name,
                    ),
                    HostUpdateView::Arp(hit.mac@),
                    now,
                ),
            ),
    {
        let mut device = Device::new(IpAddr::V4(hit.ip), self.context.scanned_at);
        device.interface = Some(self.context.interface.name.clone());
        proof {
            assert(device@ == roster::fresh_device(
                IpAddr::V4(hit.ip),
                self@.context.scanned_at,
                self@.context.interface.name,
            ));
        }
        self.context.observe(&mut device, HostUpdate::Arp(hit.mac.clone()), now);
        ScanEvent::DeviceUpdated(Box::new(device))
    }

    /// Adds what one source said of one host just now.
    fn update(&mut self, events: &mut Vec<ScanEvent>, ip: IpAddr, update: HostUpdate, now: Timestamp)
        requires
            old(self)@.valid(),
        ensures
            (final(self)@, final(events).deep_view()) == old(self)@.updated(
                old(events).deep_view(),
                ip,
                update@,
                now,
            ),
            final(self)@.valid(),
            final(self)@.context == old(self)@.context,
            final(self)@.stage == old(self)@.stage,
            old(self)@.within_target() && phases::in_target(old(self)@.context.target, ip)
                ==> final(self)@.within_target(),
    {
        proof {
            reveal(ScanSessionView::updated);
        }
        let ghost start = self@;
        let k: usize = upsert_device(
            &mut self.devices,
            ip,
            self.context.scanned_at,
            self.context.interface.name.as_str(),
        );
        let ghost list = self.devices.deep_view();
        let mut device = self.devices[k].clone();
        proof {
            assert(device@ == list[k as int]);
        }
        self.context.observe(&mut device, update, now);
        proof {
            roster::lemma_update_by_address(list, k as int, device@);
        }
        let event = ScanEvent::DeviceUpdated(Box::new(device.clone()));
        let ghost view = device@;
        self.devices.set(k, device);
        proof {
            assert(self.devices.deep_view() =~= list.update(k as int, view));
            if start.within_target() && phases::in_target(start.context.target, ip) {
                lemma_update_within(start, ip, view);
            }
        }
        push_event(events, event);
    }

    /// Adds hosts that answered for their addresses.
    fn add_hits(&mut self, events: &mut Vec<ScanEvent>, hits: &Vec<ArpHit>, now: Timestamp)
        requires
            old(self)@.valid(),
        ensures
            (final(self)@, final(events).deep_view()) == old(self)@.with_hits(
                old(events).deep_view(),
                hits.deep_view(),
                now,
            ),
            final(self)@.valid(),
            final(self)@.context == old(self)@.context,
            final(self)@.stage == old(self)@.stage,
            old(self)@.within_target() && discovery::in_range(old(self)@.context.target, hits.deep_view())
                ==> final(self)@.within_target(),
    {
        let ghost views = hits.deep_view();
        let ghost start = self@;
        let ghost first = events.deep_view();
        let mut i: usize = 0;
        while i < hits.len()
            invariant
                i <= hits@.len(),
                views == hits.deep_view(),
                self@.valid(),
                self@.context == start.context,
                self@.stage == start.stage,
                (self@, events.deep_view()) == start.with_hits(first, views.take(i as int), now),
                start.within_target() && discovery::in_range(start.context.target, views)
                    ==> self@.within_target(),
            decreases hits@.len() - i,
        {
            proof {
                assert(views.take(i + 1).drop_last() =~= views.take(i as int));
                assert(views.take(i + 1).last() == hits@[i as int]@);
                assert(views[i as int].ip == hits@[i as int].ip);
            }
            self.update(
                events,
                IpAddr::V4(hits[i].ip),
                HostUpdate::Arp(hits[i].mac.clone()),
                now,
            );
            i = i + 1;
        }
        proof {
            assert(views.take(i as int) =~= views);
        }
    }

    /// Adds leases within the target network.
    fn add_leases(&mut self, events: &mut Vec<ScanEvent>, leases: &Vec<DhcpLease>, now: Timestamp)
        requires
            old(self)@.valid(),
        ensures
            (final(self)@, final(events).deep_view()) == old(self)@.with_leases(
                old(events).deep_view(),
                leases.deep_view(),
                now,
            ),
            final(self)@.valid(),
            final(self)@.context == old(self)@.context,
            final(self)@.stage == old(self)@.stage,
            old(self)@.within_target() ==> final(self)@.within_target(),
    {
        let ghost views = leases.deep_view();
        let ghost start = self@;
        let ghost first = events.deep_view();
        let mut i: usize = 0;
        while i < leases.len()
            invariant
                i <= leases@.len(),
                views == leases.deep_view(),
                self@.valid(),
                self@.context == start.context,
                self@.stage == start.stage,
                (self@, events.deep_view()) == start.with_leases(first, views.take(i as int), now),
                start.within_target() ==> self@.within_target(),
            decreases leases@.len() - i,
        {
            proof {
                assert(views.take(i + 1).drop_last() =~= views.take(i as int));
                assert(views.take(i + 1).last() == leases@[i as int]@);
                assert(self.context.target == start.context.target);
            }
            if target_contains_ip(self.context.target, leases[i].ip) {
                self.update(events, leases[i].ip, HostUpdate::Lease(leases[i].clone()), now);
            }
            i = i + 1;
        }
        proof {
            assert(views.take(i as int) =~= views);
        }
    }

    /// Takes in an advertisement.
    fn hear(&mut self, events: &mut Vec<ScanEvent>, advertisement: L2Advertisement, now: Timestamp)
        requires
            old(self)@.valid(),
        ensures
            (final(self)@, final(events).deep_view()) == old(self)@.heard(
                old(events).deep_view(),
                advertisement@,
                now,
            ),
            final(self)@.valid(),
            final(self)@.context == old(self)@.context,
            final(self)@.stage == old(self)@.stage,
            old(self)@.within_target() ==> final(self)@.within_target(),
    {
        proof {
            reveal(ScanSessionView::heard);
        }
        let o = PassiveObservation::from_advertisement_at(advertisement, now);
        let mut targets: Vec<Ipv4Net> = Vec::new();
        targets.push(self.context.target);
        proof {
            assert(targets@ =~= seq![self@.context.target]);
        }
        let ips = o.target_ips(&self.devices, &targets);
        let ghost start = self@;
        let ghost first = events.deep_view();
        let mut i: usize = 0;
        while i < ips.len()
            invariant
                i <= ips@.len(),
                self@.valid(),
                self@.context == start.context,
                self@.stage == start.stage,
                ips@ == o@.target_ips(start.devices, seq![start.context.target]),
                start.within_target() ==> self@.within_target(),
                (self@, events.deep_view()) == start.with_advertised(
                    first,
                    ips@.take(i as int),
                    o@,
                    now,
                ),
            decreases ips@.len() - i,
        {
            proof {
                assert(ips@.take(i + 1).drop_last() =~= ips@.take(i as int));
                if start.within_target() {
                    assert(ips@.contains(ips@[i as int]));
                    passive::law_advertisement_stays_in_place(
                        o@,
                        start.devices,
                        seq![start.context.target],
                        ips@[i as int],
                    );
                }
            }
            self.update(events, ips[i], HostUpdate::Advertised(o.clone()), now);
            i = i + 1;
        }
        proof {
            assert(ips@.take(i as int) =~= ips@);
        }
    }

    /// Says that something did not work.
    fn warn(&mut self, events: &mut Vec<ScanEvent>, warning: String)
        ensures
            (final(self)@, final(events).deep_view()) == old(self)@.warned(
                old(events).deep_view(),
                warning@,
            ),
            final(self)@.context == old(self)@.context,
            final(self)@.devices == old(self)@.devices,
            final(self)@.stage == old(self)@.stage,
    {
        proof {
            reveal(ScanSessionView::warned);
        }
        let ghost before = self.warnings.deep_view();
        let ghost w = warning@;
        let event = ScanEvent::Warning(warning.clone());
        self.warnings.push(warning);
        proof {
            assert(self.warnings.deep_view() =~= before.push(w));
        }
        push_event(events, event);
    }

    /// Says that something did not work, where there is a reason.
    fn warn_if(&mut self, events: &mut Vec<ScanEvent>, text: &str, reason: &Option<String>)
        ensures
            (final(self)@, final(events).deep_view()) == old(self)@.warned_if(
                old(events).deep_view(),
                text@,
                reason.deep_view(),
            ),
            final(self)@.context == old(self)@.context,
            final(self)@.devices == old(self)@.devices,
            final(self)@.stage == old(self)@.stage,
    {
        proof {
            reveal(ScanSessionView::warned_if);
        }
        match reason {
            Some(e) => self.warn(events, concat(text, e.as_str())),
            None => {},
        }
    }

    /// Says that several things did not work.
    fn warn_each(&mut self, events: &mut Vec<ScanEvent>, warnings: &Vec<String>)
        ensures
            (final(self)@, final(events).deep_view()) == old(self)@.with_warnings(
                old(events).deep_view(),
                warnings.deep_view(),
            ),
            final(self)@.context == old(self)@.context,
            final(self)@.devices == old(self)@.devices,
            final(self)@.stage == old(self)@.stage,
    {
        let ghost views = warnings.deep_view();
        let ghost start = self@;
        let ghost first = events.deep_view();
        let mut i: usize = 0;
        while i < warnings.len()
            invariant
                i <= warnings@.len(),
                views == warnings.deep_view(),
                self@.context == start.context,
                self@.devices == start.devices,
                self@.stage == start.stage,
                (self@, events.deep_view()) == start.with_warnings(first, views.take(i as int)),
            decreases warnings@.len() - i,
        {
            proof {
                assert(views.take(i + 1).drop_last() =~= views.take(i as int));
                assert(views.take(i + 1).last() == warnings@[i as int]@);
            }
            self.warn(events, warnings[i].clone());
            i = i + 1;
        }
        proof {
            assert(views.take(i as int) =~= views);
        }
    }

    /// Applies the rules to every device, and shows each.
    fn show_all(&mut self, events: &mut Vec<ScanEvent>)
        requires
            old(self)@.valid(),
        ensures
            (final(self)@, final(events).deep_view()) == old(self)@.snapshot(
                old(events).deep_view(),
            ),
            final(self)@.valid(),
            final(self)@.context == old(self)@.context,
            old(self)@.within_target() ==> final(self)@.within_target(),
    {
        proof {
            reveal(ScanSessionView::snapshot);
        }
        let ghost views = self.devices.deep_view();
        let ghost start = self@;
        let ghost first = events.deep_view();
        let ghost rules = self.context.rules@;
        let ghost want = views.map_values(
            |d: DeviceView| identity_rules::identity_rules_spec(d, start.context.rules),
        );
        let mut i: usize = 0;
        proof {
            assert(first + updates(want.take(0)) =~= first);
        }
        while i < self.devices.len()
            invariant
                i <= self.devices@.len(),
                views.len() == self.devices@.len(),
                want.len() == views.len(),
                rules == self.context.rules@,
                forall|k: int|
                    0 <= k < views.len() ==> #[trigger] want[k] == identity_rules::identity_rules_spec(
                        views[k],
                        rules,
                    ),
                self@ == (ScanSessionView { devices: self@.devices, ..start }),
                forall|k: int|
                    0 <= k < views.len() ==> (#[trigger] self.devices@[k])@ == (if k < i {
                        want[k]
                    } else {
                        views[k]
                    }),
                forall|k: int|
                    0 <= k < i ==> (#[trigger] want[k]).ip == views[k].ip && want[k].interface
                        == views[k].interface,
                events.deep_view() == first + updates(want.take(i as int)),
            decreases self.devices@.len() - i,
        {
            let ghost before = events.deep_view();
            let mut device = self.devices[i].clone();
            apply_identity_rules(&mut device, &self.context.rules);
            proof {
                assert(device@ == want[i as int]);
                assert(device@.ip == views[i as int].ip && device@.interface
                    == views[i as int].interface) by {
                    reveal(DeviceView::extended_by);
                }
                assert(updates(want.take(i + 1)) =~= updates(want.take(i as int)).push(
                    ScanEventView::DeviceUpdated(want[i as int]),
                ));
            }
            let event = ScanEvent::DeviceUpdated(Box::new(device.clone()));
            push_event(events, event);
            self.devices.set(i, device);
            proof {
                assert(events.deep_view() =~= first + updates(want.take(i + 1)));
            }
            i = i + 1;
        }
        proof {
            assert(want.take(i as int) =~= want);
            assert(self.devices.deep_view() =~= want);
            assert forall|a: int, b: int| 0 <= a < b < want.len() implies (
            #[trigger] want[a]).ip.less_spec((#[trigger] want[b]).ip) by {
                assert(views[a].ip.less_spec(views[b].ip));
            }
            if start.within_target() {
                assert forall|k: int| 0 <= k < want.len() implies self@.in_place(
                    #[trigger] self@.devices[k],
                ) by {
                    assert(start.in_place(start.devices[k]));
                    assert(self@.devices[k] == want[k]);
                }
            }
        }
    }

    /// Adds this machine, where it is within the target network.
    fn add_self(&mut self, events: &mut Vec<ScanEvent>, now: Timestamp)
        requires
            old(self)@.valid(),
        ensures
            (final(self)@, final(events).deep_view()) == old(self)@.with_self(
                old(events).deep_view(),
                now,
            ),
            final(self)@.valid(),
            final(self)@.context == old(self)@.context,
            old(self)@.within_target() ==> final(self)@.within_target(),
    {
        proof {
            reveal(ScanSessionView::with_self);
        }
        if self.context.target.contains(self.context.interface.ip) {
            let name = match &self.context.local_name {
                Some(name) => name.clone(),
                None => self.context.interface.name.clone(),
            };
            let mac = self.context.interface.mac.clone();
            proof {
                assert(mac.deep_view() == self@.context.interface.mac);
            }
            let ip = IpAddr::V4(self.context.interface.ip);
            self.update(events, ip, HostUpdate::Local(name, mac), now);
        }
    }

    /// Looks up vendors, where they are wanted.
    fn look_up_vendors(&mut self)
        requires
            old(self)@.valid(),
        ensures
            final(self)@ == old(self)@.vendored(),
            final(self)@.valid(),
            final(self)@.context == old(self)@.context,
            old(self)@.within_target() ==> final(self)@.within_target(),
    {
        proof {
            reveal(ScanSessionView::vendored);
        }
        let ghost start = self@;
        if self.context.config.oui {
            let ghost views = self.devices.deep_view();
            apply_oui(&mut self.devices, &self.context.oui_db);
            proof {
                let list = self.devices.deep_view();
                assert forall|a: int, b: int| 0 <= a < b < list.len() implies (
                #[trigger] list[a]).ip.less_spec((#[trigger] list[b]).ip) by {
                    assert(views[a].ip.less_spec(views[b].ip));
                }
                if start.within_target() {
                    assert forall|k: int| 0 <= k < list.len() implies self@.in_place(
                        #[trigger] self@.devices[k],
                    ) by {
                        assert(start.in_place(start.devices[k]));
                    }
                }
            }
        }
    }

    /// Enters a stage.
    fn enter(&mut self, stage: ScanStage)
        ensures
            final(self)@ == (ScanSessionView { stage, ..old(self)@ }),
    {
        self.stage = stage;
    }

    /// Ends the scan.
    fn to_done(&mut self, events: &mut Vec<ScanEvent>) -> (r: ScanAction)
        ensures
            (final(self)@, final(events).deep_view(), r@) == old(self)@.to_done(
                old(events).deep_view(),
            ),
            final(self)@.context == old(self)@.context,
            final(self)@.devices == old(self)@.devices,
    {
        proof {
            reveal(ScanSessionView::to_done);
        }
        if self.context.emit_finished {
            let devices = self.devices.clone();
            let warnings = self.warnings.clone();
            proof {
                assert(devices.deep_view() =~= self.devices.deep_view());
                assert(warnings.deep_view() =~= self.warnings.deep_view());
            }
            push_event(events, ScanEvent::Finished { devices, warnings });
        }
        self.enter(ScanStage::Done);
        ScanAction::Finish
    }

    /// Goes on to the cache.
    fn to_cache(&mut self, events: &mut Vec<ScanEvent>) -> (r: ScanAction)
        ensures
            (final(self)@, final(events).deep_view(), r@) == old(self)@.to_cache(
                old(events).deep_view(),
            ),
            final(self)@.context == old(self)@.context,
            final(self)@.devices == old(self)@.devices,
    {
        proof {
            reveal(ScanSessionView::to_cache);
        }
        if self.context.config.cache_enabled {
            push_event(events, ScanEvent::Phase(owned("cache merge")));
            self.enter(ScanStage::LoadingCache);
            ScanAction::LoadCache
        } else {
            self.to_done(events)
        }
    }

    /// Goes on to the passive listener.
    fn to_close(&mut self, events: &mut Vec<ScanEvent>) -> (r: ScanAction)
        ensures
            (final(self)@, final(events).deep_view(), r@) == old(self)@.to_close(
                old(events).deep_view(),
            ),
            final(self)@.context == old(self)@.context,
            final(self)@.devices == old(self)@.devices,
    {
        proof {
            reveal(ScanSessionView::to_close);
        }
        if self.context.config.lldp || self.context.config.cdp {
            self.enter(ScanStage::ClosingL2);
            ScanAction::CloseL2
        } else {
            self.to_cache(events)
        }
    }

    /// Lists the hosts that show an SMB service on its port.
    fn smb_ips(&self) -> (r: Vec<IpAddr>)
        ensures
            r@ == self@.smb_hosts(),
    {
        let ghost views = self.devices.deep_view();
        let mut ips: Vec<IpAddr> = Vec::new();
        let mut i: usize = 0;
        proof {
            reveal(Seq::filter);
            assert(ips@ =~= roster::addresses_spec(views.take(0).filter(smb_shown())));
        }
        while i < self.devices.len()
            invariant
                i <= self.devices@.len(),
                views == self.devices.deep_view(),
                ips@ == roster::addresses_spec(views.take(i as int).filter(smb_shown())),
            decreases self.devices@.len() - i,
        {
            let ghost before = views.take(i as int).filter(smb_shown());
            proof {
                reveal(Seq::filter);
                assert(views.take(i + 1).drop_last() =~= views.take(i as int));
                assert(views.take(i + 1).last() == self.devices@[i as int]@);
            }
            if device_shows_smb(&self.devices[i]) {
                ips.push(self.devices[i].ip);
                proof {
                    assert(ips@ =~= roster::addresses_spec(before.push(views[i as int])));
                }
            }
            i = i + 1;
        }
        proof {
            assert(views.take(i as int) =~= views);
        }
        ips
    }

    /// Goes on to SMB.
    fn to_smb(&mut self, events: &mut Vec<ScanEvent>) -> (r: ScanAction)
        ensures
            (final(self)@, final(events).deep_view(), r@) == old(self)@.to_smb(
                old(events).deep_view(),
            ),
            final(self)@.context == old(self)@.context,
            final(self)@.devices == old(self)@.devices,
    {
        proof {
            reveal(ScanSessionView::to_smb);
        }
        if self.context.config.smb {
            let ips = self.smb_ips();
            if ips.len() > 0 {
                push_event(events, ScanEvent::Phase(owned("SMB fingerprinting")));
                self.enter(ScanStage::Smb);
                return ScanAction::Smb(ips);
            }
        }
        self.to_close(events)
    }

    /// Goes on to the probes.
    fn to_probes(&mut self, events: &mut Vec<ScanEvent>) -> (r: ScanAction)
        ensures
            (final(self)@, final(events).deep_view(), r@) == old(self)@.to_probes(
                old(events).deep_view(),
            ),
            final(self)@.context == old(self)@.context,
            final(self)@.devices == old(self)@.devices,
    {
        proof {
            reveal(ScanSessionView::to_probes);
        }
        announce_probes(events, &self.context.config);
        let ips = addresses(&self.devices);
        let config = &self.context.config;
        let ports = config.deep || config.ssh || config.http || config.tls;
        let snmp = config.snmp;
        self.enter(ScanStage::Probing);
        ScanAction::Probes { ips, ports, snmp }
    }

    /// Goes on to the names.
    fn to_names(&mut self, events: &mut Vec<ScanEvent>) -> (r: ScanAction)
        ensures
            (final(self)@, final(events).deep_view(), r@) == old(self)@.to_names(
                old(events).deep_view(),
            ),
            final(self)@.context == old(self)@.context,
            final(self)@.devices == old(self)@.devices,
    {
        proof {
            reveal(ScanSessionView::to_names);
        }
        announce_names(events, &self.context.config);
        let ips = addresses(&self.devices);
        let rdns = self.context.config.rdns;
        let netbios = self.context.config.netbios;
        self.enter(ScanStage::Naming);
        ScanAction::Names { ips, rdns, netbios }
    }

    /// Goes on to multicast.
    fn to_multicast(&mut self, events: &mut Vec<ScanEvent>) -> (r: ScanAction)
        ensures
            (final(self)@, final(events).deep_view(), r@) == old(self)@.to_multicast(
                old(events).deep_view(),
            ),
            final(self)@.context == old(self)@.context,
            final(self)@.devices == old(self)@.devices,
    {
        proof {
            reveal(ScanSessionView::to_multicast);
        }
        announce_multicast(events, &self.context.config);
        let mdns = self.context.config.mdns;
        let upnp = self.context.config.upnp;
        self.enter(ScanStage::Multicast);
        ScanAction::Multicast { mdns, upnp }
    }

    /// Goes on to the leases.
    fn to_leases(&mut self, events: &mut Vec<ScanEvent>) -> (r: ScanAction)
        ensures
            (final(self)@, final(events).deep_view(), r@) == old(self)@.to_leases(
                old(events).deep_view(),
            ),
            final(self)@.context == old(self)@.context,
            final(self)@.devices == old(self)@.devices,
    {
        proof {
            reveal(ScanSessionView::to_leases);
        }
        if self.context.config.dhcp {
            push_event(events, ScanEvent::Phase(owned("DHCP lease enrichment")));
            let paths = self.context.config.dhcp_paths.clone();
            proof {
                assert(paths.deep_view() =~= self.context.config.dhcp_paths.deep_view());
            }
            self.enter(ScanStage::ReadingLeases);
            ScanAction::ReadLeases(paths)
        } else {
            self.to_multicast(events)
        }
    }

    /// Ends discovery and goes on to what comes after it.
    fn finish_discovery(&mut self, events: &mut Vec<ScanEvent>, now: Timestamp) -> (r: (
        Option<(L2Protocols, u64)>,
        ScanAction,
    ))
        requires
            old(self)@.valid(),
        ensures
            (final(self)@, final(events).deep_view(), r.1@) == old(self)@.after_discovery(
                old(events).deep_view(),
                now,
            ),
            r.0 == old(self)@.listener(),
            final(self)@.valid(),
            final(self)@.context == old(self)@.context,
            old(self)@.within_target() ==> final(self)@.within_target(),
    {
        proof {
            reveal(ScanSessionView::after_discovery);
        }
        self.add_self(events, now);
        self.look_up_vendors();
        self.show_all(events);
        let listen = l2_discovery(&self.context.config);
        if let Some((protocols, window)) = listen {
            push_event(events, l2_phase(protocols, window));
        }
        let action = self.to_leases(events);
        (listen, action)
    }

    /// Merges the earlier scan.
    fn merge_cache(&mut self, previous: &Vec<Device>)
        requires
            old(self)@.valid(),
        ensures
            final(self)@ == old(self)@.with_cache(previous.deep_view()),
            final(self)@.valid(),
            final(self)@.context == old(self)@.context,
            old(self)@.within_target() ==> final(self)@.within_target(),
    {
        proof {
            reveal(ScanSessionView::with_cache);
        }
        let ghost start = self@;
        let ghost views = self.devices.deep_view();
        merge_previous_scan(&mut self.devices, previous);
        proof {
            let list = self.devices.deep_view();
            assert forall|k: int| 0 <= k < list.len() implies (#[trigger] list[k]).ip
                == views[k].ip && list[k].interface == views[k].interface by {
                store::law_cache_keeps_all(views[k], previous.deep_view());
            }
            if start.within_target() {
                assert forall|k: int| 0 <= k < list.len() implies self@.in_place(
                    #[trigger] self@.devices[k],
                ) by {
                    assert(start.in_place(start.devices[k]));
                    assert(self@.devices[k] == list[k]);
                }
            }
            assert forall|a: int, b: int| 0 <= a < b < list.len() implies (
            #[trigger] list[a]).ip.less_spec((#[trigger] list[b]).ip) by {
                assert(views[a].ip.less_spec(views[b].ip));
            }
        }
    }

    /// The result of the scan.
    pub fn result(&self) -> (r: ScanResult)
        ensures
            r@ == (ScanResultView {
                target: self.context.target.text_spec(),
                interface: self@.context.interface.name,
                scanned_at: self@.context.scanned_at,
                devices: self@.devices,
                warnings: self@.warnings,
            }),
    {
        let r = ScanResult {
            target: self.context.target.text(),
            interface: self.context.interface.name.clone(),
            scanned_at: self.context.scanned_at,
            devices: self.devices.clone(),
            warnings: self.warnings.clone(),
        };
        proof {
            assert(r.devices.deep_view() =~= self.devices.deep_view());
            assert(r.warnings.deep_view() =~= self.warnings.deep_view());
        }
        r
    }

    /// Takes in the outcome of the sweep.
    fn on_swept(&mut self, events: &mut Vec<ScanEvent>, result: Result<Vec<ArpHit>, String>, now: Timestamp) -> (r: (Option<(L2Protocols, u64)>, ScanAction))
        requires
            old(self)@.valid(),
            old(events).deep_view() == Seq::<ScanEventView>::empty(),
        ensures
            (final(self)@, final(events).deep_view(), r.1@) == old(self)@.on_swept(swept_view(result), now),
            r.0 == (if old(self)@.stage == ScanStage::Sweeping && result is Ok {
                old(self)@.listener()
            } else {
                None
            }),
            final(self)@.valid(),
            old(self)@.within_target() && old(self)@.may_report(ScanInputView::Swept(swept_view(result)))
                ==> final(self)@.within_target(),
    {
        proof {
            reveal(ScanSessionView::on_swept);
        }
        if self.stage != ScanStage::Sweeping {
            return (None, ScanAction::Wait);
        }
        match result {
            Ok(hits) => {
                self.add_hits(events, &hits, now);
                self.finish_discovery(events, now)
            },
            Err(reason) => {
                self.warn(
                    events,
                    concat3(
                        "ARP sweep failed (",
                        reason.as_str(),
                        "); falling back to the OS ARP table",
                    ),
                );
                self.enter(ScanStage::ReadingTable);
                (None, ScanAction::ReadTable)
            },
        }
    }

    /// Takes in the neighbor table.
    fn on_table(&mut self, events: &mut Vec<ScanEvent>, hits: Vec<ArpHit>, now: Timestamp) -> (r: (Option<(L2Protocols, u64)>, ScanAction))
        requires
            old(self)@.valid(),
            old(events).deep_view() == Seq::<ScanEventView>::empty(),
        ensures
            (final(self)@, final(events).deep_view(), r.1@) == old(self)@.on_table(hits.deep_view(), now),
            r.0 == (if old(self)@.stage == ScanStage::ReadingTable {
                old(self)@.listener()
            } else {
                None
            }),
            final(self)@.valid(),
            old(self)@.within_target() && old(self)@.may_report(ScanInputView::Table(hits.deep_view()))
                ==> final(self)@.within_target(),
    {
        proof {
            reveal(ScanSessionView::on_table);
        }
        if self.stage != ScanStage::ReadingTable {
            return (None, ScanAction::Wait);
        }
        self.add_hits(events, &hits, now);
        self.finish_discovery(events, now)
    }

    /// Takes in the leases.
    fn on_leases(&mut self, events: &mut Vec<ScanEvent>, leases: Vec<DhcpLease>, warnings: Vec<String>, now: Timestamp) -> (r: ScanAction)
        requires
            old(self)@.valid(),
            old(events).deep_view() == Seq::<ScanEventView>::empty(),
        ensures
            (final(self)@, final(events).deep_view(), r@) == old(self)@.on_leases(leases.deep_view(), warnings.deep_view(), now),
            final(self)@.valid(),
            old(self)@.within_target()
                ==> final(self)@.within_target(),
    {
        proof {
            reveal(ScanSessionView::on_leases);
        }
        if self.stage != ScanStage::ReadingLeases {
            return ScanAction::Wait;
        }
        self.warn_each(events, &warnings);
        self.add_leases(events, &leases, now);
        self.to_multicast(events)
    }

    /// Takes in what was learned of a host.
    fn on_update(&mut self, events: &mut Vec<ScanEvent>, ip: IpAddr, update: HostUpdate, now: Timestamp) -> (r: ScanAction)
        requires
            old(self)@.valid(),
            old(events).deep_view() == Seq::<ScanEventView>::empty(),
        ensures
            (final(self)@, final(events).deep_view(), r@) == old(self)@.on_update(ip, update@, now),
            final(self)@.valid(),
            old(self)@.within_target() && old(self)@.may_report(ScanInputView::Update(ip, update@))
                ==> final(self)@.within_target(),
    {
        proof {
            reveal(ScanSessionView::on_update);
        }
        let stage = self.stage;
        if stage == ScanStage::Multicast || stage == ScanStage::Naming || stage
            == ScanStage::Probing || stage == ScanStage::Smb {
            let multicast = match &update {
                HostUpdate::Mdns(_) | HostUpdate::Upnp(_) => true,
                _ => false,
            };
            if !multicast || target_contains_ip(self.context.target, ip) {
                proof {
                    let known = roster::ip_place(self@.devices, ip);
                    roster::lemma_ip_place(self@.devices, ip);
                    if self@.within_target() && known < self@.devices.len() {
                        assert(self@.in_place(self@.devices[known]));
                    }
                }
                self.update(events, ip, update, now);
            }
        }
        ScanAction::Wait
    }

    /// Takes in an advertisement.
    fn on_advertised(&mut self, events: &mut Vec<ScanEvent>, advertisement: L2Advertisement, now: Timestamp) -> (r: ScanAction)
        requires
            old(self)@.valid(),
            old(events).deep_view() == Seq::<ScanEventView>::empty(),
        ensures
            (final(self)@, final(events).deep_view(), r@) == old(self)@.on_advertised(advertisement@, now),
            final(self)@.valid(),
            old(self)@.within_target()
                ==> final(self)@.within_target(),
    {
        proof {
            reveal(ScanSessionView::on_advertised);
        }
        let stage = self.stage;
        if (self.context.config.lldp || self.context.config.cdp) && (stage == ScanStage::Multicast
            || stage == ScanStage::Naming || stage == ScanStage::Probing || stage == ScanStage::Smb
            || stage == ScanStage::ReadingLeases || stage == ScanStage::ClosingL2) {
            self.hear(events, advertisement, now);
        }
        ScanAction::Wait
    }

    /// Ends mDNS and UPnP.
    fn on_multicast_done(&mut self, events: &mut Vec<ScanEvent>, mdns: Option<String>, upnp: Option<String>) -> (r: ScanAction)
        requires
            old(self)@.valid(),
            old(events).deep_view() == Seq::<ScanEventView>::empty(),
        ensures
            (final(self)@, final(events).deep_view(), r@) == old(self)@.on_multicast_done(mdns.deep_view(), upnp.deep_view()),
            final(self)@.valid(),
            old(self)@.within_target()
                ==> final(self)@.within_target(),
    {
        proof {
            reveal(ScanSessionView::on_multicast_done);
        }
        if self.stage != ScanStage::Multicast {
            return ScanAction::Wait;
        }
        self.warn_if(events, "mDNS enrichment failed: ", &mdns);
        self.warn_if(events, "UPnP/SSDP enrichment failed: ", &upnp);
        self.to_names(events)
    }

    /// Ends the passive listener.
    fn on_l2_closed(&mut self, events: &mut Vec<ScanEvent>, reason: Option<String>) -> (r: ScanAction)
        requires
            old(self)@.valid(),
            old(events).deep_view() == Seq::<ScanEventView>::empty(),
        ensures
            (final(self)@, final(events).deep_view(), r@) == old(self)@.on_l2_closed(reason.deep_view()),
            final(self)@.valid(),
            old(self)@.within_target()
                ==> final(self)@.within_target(),
    {
        proof {
            reveal(ScanSessionView::on_l2_closed);
        }
        if self.stage != ScanStage::ClosingL2 {
            return ScanAction::Wait;
        }
        self.warn_if(events, "L2 passive discovery failed: ", &reason);
        self.to_cache(events)
    }

    /// Takes in the earlier scan.
    fn on_cache_loaded(&mut self, events: &mut Vec<ScanEvent>, result: Result<Vec<Device>, String>) -> (r: ScanAction)
        requires
            old(self)@.valid(),
            old(events).deep_view() == Seq::<ScanEventView>::empty(),
        ensures
            (final(self)@, final(events).deep_view(), r@) == old(self)@.on_cache_loaded(loaded_view(result)),
            final(self)@.valid(),
            old(self)@.within_target()
                ==> final(self)@.within_target(),
    {
        proof {
            reveal(ScanSessionView::on_cache_loaded);
        }
        if self.stage != ScanStage::LoadingCache {
            return ScanAction::Wait;
        }
        match result {
            Ok(previous) => {
                self.merge_cache(&previous);
                self.show_all(events);
                self.enter(ScanStage::SavingCache);
                ScanAction::SaveCache
            },
            Err(reason) => {
                self.warn(events, concat("failed to load scan cache: ", reason.as_str()));
                self.to_done(events)
            },
        }
    }

    /// Ends the writing of this scan.
    fn on_cache_saved(&mut self, events: &mut Vec<ScanEvent>, reason: Option<String>) -> (r: ScanAction)
        requires
            old(self)@.valid(),
            old(events).deep_view() == Seq::<ScanEventView>::empty(),
        ensures
            (final(self)@, final(events).deep_view(), r@) == old(self)@.on_cache_saved(reason.deep_view()),
            final(self)@.valid(),
            old(self)@.within_target()
                ==> final(self)@.within_target(),
    {
        proof {
            reveal(ScanSessionView::on_cache_saved);
        }
        if self.stage != ScanStage::SavingCache {
            return ScanAction::Wait;
        }
        self.warn_if(events, "failed to save scan cache: ", &reason);
        self.to_done(events)
    }

    /// Takes in what the surroundings report, and decides what happens next.
    ///
    /// Evidence never crosses the bounds of the scanned range: while the reports name
    /// hosts of the target network, every device is one of it and of the interface.
    pub fn step(&mut self, input: ScanInput, now: Timestamp) -> (r: ScanStep)
        requires
            old(self)@.valid(),
        ensures
            (final(self)@, r.events.deep_view(), r.action@) == old(self)@.step(input@, now),
            r.listen == (if input_ends_discovery(old(self)@, input@) {
                old(self)@.listener()
            } else {
                None
            }),
            final(self)@.valid(),
            old(self)@.within_target() && old(self)@.may_report(input@)
                ==> final(self)@.within_target(),
    {
        let mut events: Vec<ScanEvent> = Vec::new();
        let mut listen: Option<(L2Protocols, u64)> = None;
        proof {
            assert(events.deep_view() =~= Seq::empty());
        }
        let action = match input {
            ScanInput::Swept(result) => {
                let (started, action) = self.on_swept(&mut events, result, now);
                listen = started;
                action
            },
            ScanInput::Table(hits) => {
                let (started, action) = self.on_table(&mut events, hits, now);
                listen = started;
                action
            },
            ScanInput::Leases(leases, warnings) => {
                self.on_leases(&mut events, leases, warnings, now)
            },
            ScanInput::Update(ip, update) => self.on_update(&mut events, ip, update, now),
            ScanInput::Advertised(advertisement) => {
                self.on_advertised(&mut events, advertisement, now)
            },
            ScanInput::MulticastDone { mdns, upnp } => {
                self.on_multicast_done(&mut events, mdns, upnp)
            },
            ScanInput::NamesDone => {
                if self.stage == ScanStage::Naming {
                    self.to_probes(&mut events)
                } else {
                    ScanAction::Wait
                }
            },
            ScanInput::ProbesDone => {
                if self.stage == ScanStage::Probing {
                    self.to_smb(&mut events)
                } else {
                    ScanAction::Wait
                }
            },
            ScanInput::SmbDone => {
                if self.stage == ScanStage::Smb {
                    self.to_close(&mut events)
                } else {
                    ScanAction::Wait
                }
            },
            ScanInput::L2Closed(reason) => self.on_l2_closed(&mut events, reason),
            ScanInput::CacheLoaded(result) => self.on_cache_loaded(&mut events, result),
            ScanInput::CacheSaved(reason) => self.on_cache_saved(&mut events, reason),
        };
        ScanStep { events, listen, action }
    }
}

/// An update of a host in the target network leaves every device there.
proof fn lemma_update_within(s: ScanSessionView, ip: IpAddr, d: DeviceView)
    requires
        s.valid(),
        s.within_target(),
        phases::in_target(s.context.target, ip),
        ({
            let list = roster::with_device(
                s.devices,
                ip,
                s.context.scanned_at,
                s.context.interface.name,
            );
            let k = roster::ip_place(list, ip);
            d.ip == list[k].ip && d.interface == list[k].interface
        }),
    ensures
        ({
            let list = roster::with_device(
                s.devices,
                ip,
                s.context.scanned_at,
                s.context.interface.name,
            );
            ScanSessionView {
                devices: list.update(roster::ip_place(list, ip), d),
                ..s
            }.within_target()
        }),
{
    let name = s.context.interface.name;
    let list = roster::with_device(s.devices, ip, s.context.scanned_at, name);
    let k = roster::ip_place(list, ip);
    roster::lemma_with_device(s.devices, ip, s.context.scanned_at, name);
    let n = ScanSessionView { devices: list.update(k, d), ..s };
    assert forall|i: int| 0 <= i < n.devices.len() implies n.in_place(#[trigger] n.devices[i]) by {
        roster::lemma_with_device_members(s.devices, ip, s.context.scanned_at, name, i);
        let x = list[i];
        if s.devices.contains(x) {
            let m = choose|m: int| 0 <= m < s.devices.len() && s.devices[m] == x;
            assert(s.in_place(s.devices[m]));
        } else if x != roster::fresh_device(ip, s.context.scanned_at, name) {
            let m = choose|m: int|
                0 <= m < s.devices.len() && x == roster::on_interface(#[trigger] s.devices[m], name);
            assert(s.in_place(s.devices[m]));
        }
        assert(s.in_place(x));
    }
}

/// The report ends discovery, so that the passive listener starts.
pub open spec fn input_ends_discovery(s: ScanSessionView, input: ScanInputView) -> bool {
    match input {
        ScanInputView::Swept(Ok(_)) => s.stage == ScanStage::Sweeping,
        ScanInputView::Table(_) => s.stage == ScanStage::ReadingTable,
        _ => false,
    }
}

/// How far a stage is.
pub open spec fn stage_rank(stage: ScanStage) -> int {
    match stage {
        ScanStage::Sweeping => 0,
        ScanStage::ReadingTable => 1,
        ScanStage::ReadingLeases => 2,
        ScanStage::Multicast => 3,
        ScanStage::Naming => 4,
        ScanStage::Probing => 5,
        ScanStage::Smb => 6,
        ScanStage::ClosingL2 => 7,
        ScanStage::LoadingCache => 8,
        ScanStage::SavingCache => 9,
        ScanStage::Done => 10,
    }
}

/// `after` is a later state of the same scan within one stage: nothing that was said
/// is taken back.
pub open spec fn goes_on(before: ScanSessionView, after: ScanSessionView) -> bool {
    after.context == before.context && after.stage == before.stage
        && before.warnings.is_prefix_of(after.warnings)
}

/// An update stays within its stage.
proof fn lemma_updated(
    s: ScanSessionView,
    events: Seq<ScanEventView>,
    ip: IpAddr,
    update: HostUpdateView,
    now: Timestamp,
)
    ensures
        goes_on(s, s.updated(events, ip, update, now).0),
        s.updated(events, ip, update, now).0.warnings == s.warnings,
{
    reveal(ScanSessionView::updated);
}

/// Answers stay within their stage.
proof fn lemma_with_hits(
    s: ScanSessionView,
    events: Seq<ScanEventView>,
    hits: Seq<ArpHitView>,
    now: Timestamp,
)
    ensures
        goes_on(s, s.with_hits(events, hits, now).0),
        s.with_hits(events, hits, now).0.warnings == s.warnings,
    decreases hits.len(),
{
    if hits.len() > 0 {
        lemma_with_hits(s, events, hits.drop_last(), now);
        let (n, e) = s.with_hits(events, hits.drop_last(), now);
        lemma_updated(
            n,
            e,
            IpAddr::V4(hits.last().ip),
            HostUpdateView::Arp(hits.last().mac),
            now,
        );
    }
}

/// Leases stay within their stage.
proof fn lemma_with_leases(
    s: ScanSessionView,
    events: Seq<ScanEventView>,
    leases: Seq<DhcpLeaseView>,
    now: Timestamp,
)
    ensures
        goes_on(s, s.with_leases(events, leases, now).0),
        s.with_leases(events, leases, now).0.warnings == s.warnings,
    decreases leases.len(),
{
    if leases.len() > 0 {
        lemma_with_leases(s, events, leases.drop_last(), now);
        let (n, e) = s.with_leases(events, leases.drop_last(), now);
        lemma_updated(n, e, leases.last().ip, HostUpdateView::Lease(leases.last()), now);
    }
}

/// Advertisements stay within their stage.
proof fn lemma_with_advertised(
    s: ScanSessionView,
    events: Seq<ScanEventView>,
    ips: Seq<IpAddr>,
    o: PassiveObservationView,
    now: Timestamp,
)
    ensures
        goes_on(s, s.with_advertised(events, ips, o, now).0),
        s.with_advertised(events, ips, o, now).0.warnings == s.warnings,
    decreases ips.len(),
{
    if ips.len() > 0 {
        lemma_with_advertised(s, events, ips.drop_last(), o, now);
        let (n, e) = s.with_advertised(events, ips.drop_last(), o, now);
        lemma_updated(n, e, ips.last(), HostUpdateView::Advertised(o), now);
    }
}

/// Warnings stay within their stage.
proof fn lemma_with_warnings(
    s: ScanSessionView,
    events: Seq<ScanEventView>,
    warnings: Seq<Seq<char>>,
)
    ensures
        goes_on(s, s.with_warnings(events, warnings).0),
        s.with_warnings(events, warnings).0.warnings == s.warnings + warnings,
    decreases warnings.len(),
{
    reveal(ScanSessionView::warned);
    if warnings.len() > 0 {
        lemma_with_warnings(s, events, warnings.drop_last());
        assert(s.warnings + warnings =~= (s.warnings + warnings.drop_last()).push(warnings.last()));
    } else {
        assert(s.warnings + warnings =~= s.warnings);
    }
}

/// What comes after a stage is a later stage.
proof fn lemma_transitions(s: ScanSessionView, events: Seq<ScanEventView>)
    ensures
        ({
            let n = s.to_done(events).0;
            n.context == s.context && n.warnings == s.warnings && stage_rank(n.stage) == 10
        }),
        ({
            let n = s.to_cache(events).0;
            n.context == s.context && n.warnings == s.warnings && stage_rank(n.stage) >= 8
        }),
        ({
            let n = s.to_close(events).0;
            n.context == s.context && n.warnings == s.warnings && stage_rank(n.stage) >= 7
        }),
        ({
            let n = s.to_smb(events).0;
            n.context == s.context && n.warnings == s.warnings && stage_rank(n.stage) >= 6
        }),
        ({
            let n = s.to_probes(events).0;
            n.context == s.context && n.warnings == s.warnings && stage_rank(n.stage) == 5
        }),
        ({
            let n = s.to_names(events).0;
            n.context == s.context && n.warnings == s.warnings && stage_rank(n.stage) == 4
        }),
        ({
            let n = s.to_multicast(events).0;
            n.context == s.context && n.warnings == s.warnings && stage_rank(n.stage) == 3
        }),
        ({
            let n = s.to_leases(events).0;
            n.context == s.context && n.warnings == s.warnings && stage_rank(n.stage) >= 2
        }),
{
    reveal(ScanSessionView::to_done);
    reveal(ScanSessionView::to_cache);
    reveal(ScanSessionView::to_close);
    reveal(ScanSessionView::to_smb);
    reveal(ScanSessionView::to_probes);
    reveal(ScanSessionView::to_names);
    reveal(ScanSessionView::to_multicast);
    reveal(ScanSessionView::to_leases);
}

/// Discovery leads to a later stage.
proof fn lemma_after_discovery(s: ScanSessionView, events: Seq<ScanEventView>, now: Timestamp)
    ensures
        ({
            let n = s.after_discovery(events, now).0;
            n.context == s.context && n.warnings == s.warnings && stage_rank(n.stage) >= 2
        }),
{
    reveal(ScanSessionView::after_discovery);
    reveal(ScanSessionView::with_self);
    reveal(ScanSessionView::vendored);
    reveal(ScanSessionView::snapshot);
    let interface = s.context.interface;
    let name = match s.context.local_name {
        Some(name) => name,
        None => interface.name,
    };
    lemma_updated(
        s,
        events,
        IpAddr::V4(interface.ip),
        HostUpdateView::Local(name, interface.mac),
        now,
    );
    let (n, e) = s.discovered(events, now);
    lemma_transitions(n, n.announced(e));
}

/// A scan never goes back: whatever is reported, it stays in its stage or goes on to a
/// later one, and no warning is taken back. A scan that has something to do goes on
/// exactly when an action other than waiting comes out.
pub proof fn law_scan_goes_forward(s: ScanSessionView, input: ScanInputView, now: Timestamp)
    ensures
        ({
            let (n, events, action) = s.step(input, now);
            &&& n.context == s.context
            &&& s.warnings.is_prefix_of(n.warnings)
            &&& stage_rank(n.stage) >= stage_rank(s.stage)
            &&& action is Wait <==> n.stage == s.stage
        }),
{
    reveal(ScanSessionView::warned);
    reveal(ScanSessionView::warned_if);
    reveal(ScanSessionView::with_cache);
    reveal(ScanSessionView::snapshot);
    lemma_actions(s);
    match input {
        ScanInputView::Swept(result) => {
            reveal(ScanSessionView::on_swept);
            if s.stage == ScanStage::Sweeping && result is Ok {
                let (n, e) = s.with_hits(Seq::empty(), result->Ok_0, now);
                lemma_with_hits(s, Seq::empty(), result->Ok_0, now);
                lemma_after_discovery(n, e, now);
                lemma_discovery_acts(n, e, now);
            }
        },
        ScanInputView::Table(hits) => {
            reveal(ScanSessionView::on_table);
            let (n, e) = s.with_hits(Seq::empty(), hits, now);
            lemma_with_hits(s, Seq::empty(), hits, now);
            lemma_after_discovery(n, e, now);
            lemma_discovery_acts(n, e, now);
        },
        ScanInputView::Leases(leases, warnings) => {
            reveal(ScanSessionView::on_leases);
            let (a, e) = s.with_warnings(Seq::empty(), warnings);
            lemma_with_warnings(s, Seq::empty(), warnings);
            let (b, f) = a.with_leases(e, leases, now);
            lemma_with_leases(a, e, leases, now);
            lemma_transitions(b, f);
            lemma_actions(b);
        },
        ScanInputView::Update(ip, update) => {
            reveal(ScanSessionView::on_update);
            lemma_updated(s, Seq::empty(), ip, update, now);
        },
        ScanInputView::Advertised(advertisement) => {
            reveal(ScanSessionView::on_advertised);
            reveal(ScanSessionView::heard);
            let o = PassiveObservationView::from_advertisement(advertisement, now);
            lemma_with_advertised(
                s,
                Seq::empty(),
                o.target_ips(s.devices, seq![s.context.target]),
                o,
                now,
            );
        },
        ScanInputView::MulticastDone { mdns, upnp } => {
            reveal(ScanSessionView::on_multicast_done);
            let (a, e) = s.warned_if(Seq::empty(), "mDNS enrichment failed: "@, mdns);
            let (b, f) = a.warned_if(e, "UPnP/SSDP enrichment failed: "@, upnp);
            lemma_transitions(b, f);
            lemma_actions(b);
        },
        ScanInputView::NamesDone => lemma_transitions(s, Seq::empty()),
        ScanInputView::ProbesDone => lemma_transitions(s, Seq::empty()),
        ScanInputView::SmbDone => lemma_transitions(s, Seq::empty()),
        ScanInputView::L2Closed(reason) => {
            reveal(ScanSessionView::on_l2_closed);
            let (a, e) = s.warned_if(Seq::empty(), "L2 passive discovery failed: "@, reason);
            lemma_transitions(a, e);
            lemma_actions(a);
        },
        ScanInputView::CacheLoaded(result) => {
            reveal(ScanSessionView::on_cache_loaded);
            if result is Err {
                let (a, e) = s.warned(
                    Seq::empty(),
                    "failed to load scan cache: "@ + result->Err_0,
                );
                lemma_transitions(a, e);
                lemma_actions(a);
            }
        },
        ScanInputView::CacheSaved(reason) => {
            reveal(ScanSessionView::on_cache_saved);
            let (a, e) = s.warned_if(Seq::empty(), "failed to save scan cache: "@, reason);
            lemma_transitions(a, e);
            lemma_actions(a);
        },
    }
}

/// Going on to a stage is an action.
proof fn lemma_actions(s: ScanSessionView)
    ensures
        forall|events: Seq<ScanEventView>| !((#[trigger] s.to_done(events)).2 is Wait),
        forall|events: Seq<ScanEventView>| !((#[trigger] s.to_cache(events)).2 is Wait),
        forall|events: Seq<ScanEventView>| !((#[trigger] s.to_close(events)).2 is Wait),
        forall|events: Seq<ScanEventView>| !((#[trigger] s.to_smb(events)).2 is Wait),
        forall|events: Seq<ScanEventView>| !((#[trigger] s.to_probes(events)).2 is Wait),
        forall|events: Seq<ScanEventView>| !((#[trigger] s.to_names(events)).2 is Wait),
        forall|events: Seq<ScanEventView>| !((#[trigger] s.to_multicast(events)).2 is Wait),
        forall|events: Seq<ScanEventView>| !((#[trigger] s.to_leases(events)).2 is Wait),
{
    reveal(ScanSessionView::to_done);
    reveal(ScanSessionView::to_cache);
    reveal(ScanSessionView::to_close);
    reveal(ScanSessionView::to_smb);
    reveal(ScanSessionView::to_probes);
    reveal(ScanSessionView::to_names);
    reveal(ScanSessionView::to_multicast);
    reveal(ScanSessionView::to_leases);
}

/// The end of discovery is an action.
proof fn lemma_discovery_acts(s: ScanSessionView, events: Seq<ScanEventView>, now: Timestamp)
    ensures
        !(s.after_discovery(events, now).2 is Wait),
{
    reveal(ScanSessionView::after_discovery);
    let (n, e) = s.discovered(events, now);
    lemma_actions(n);
}

} // verus!
