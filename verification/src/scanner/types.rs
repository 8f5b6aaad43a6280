//! Scanner configuration and event types shared by the command line and the output
//! layers.
//!
//! [`ScanConfig`] is intentionally concrete: each value describes one interface and
//! one normalized target range. Higher-level orchestration can run several
//! configurations, but each scanner pass always has one L2 context for evidence.
//! Durations are in milliseconds.

use crate::model::{Device, DeviceView};
use vstd::prelude::*;

verus! {

/// How thoroughly to scan.
#[derive(Clone, Copy, Debug, PartialEq, Eq, Structural)]
pub enum ScanProfile {
    Fast,
    Normal,
    Deep,
}

impl ScanProfile {
    /// How long, in milliseconds, a probe waits unless told otherwise.
    pub open spec fn default_timeout_spec(self) -> u64 {
        match self {
            ScanProfile::Fast => 650,
            ScanProfile::Normal => 1200,
            ScanProfile::Deep => 2500,
        }
    }

    /// How long, in milliseconds, a probe waits unless told otherwise.
    pub fn default_timeout(self) -> (r: u64)
        ensures
            r == self.default_timeout_spec(),
    {
        match self {
            ScanProfile::Fast => 650,
            ScanProfile::Normal => 1200,
            ScanProfile::Deep => 2500,
        }
    }

    /// Reports whether ports are probed.
    pub fn includes_deep_probes(self) -> (r: bool)
        ensures
            r == (self == ScanProfile::Deep),
    {
        matches!(self, ScanProfile::Deep)
    }

    /// Reports whether LLDP is listened for.
    pub fn includes_lldp_fingerprints(self) -> (r: bool)
        ensures
            r == (self == ScanProfile::Deep),
    {
        matches!(self, ScanProfile::Deep)
    }

    /// Reports whether CDP is listened for.
    pub fn includes_cdp_fingerprints(self) -> (r: bool)
        ensures
            r == (self == ScanProfile::Deep),
    {
        matches!(self, ScanProfile::Deep)
    }

    /// The name of the profile.
    pub open spec fn text_spec(self) -> Seq<char> {
        match self {
            ScanProfile::Fast => "fast"@,
            ScanProfile::Normal => "normal"@,
            ScanProfile::Deep => "deep"@,
        }
    }

    /// Names the profile.
    pub fn text(self) -> (r: &'static str)
        ensures
            r@ == self.text_spec(),
    {
        match self {
            ScanProfile::Fast => "fast",
            ScanProfile::Normal => "normal",
            ScanProfile::Deep => "deep",
        }
    }
}

/// A deeper profile waits longer.
pub proof fn law_deeper_profiles_wait_longer()
    ensures
        ScanProfile::Fast.default_timeout_spec() < ScanProfile::Normal.default_timeout_spec(),
        ScanProfile::Normal.default_timeout_spec() < ScanProfile::Deep.default_timeout_spec(),
{
}

/// What one scan of one L2 interface does. Raw ARP sockets, multicast sockets, and
/// lease matching stay tied to the interface that produced the evidence. Identity
/// rules are always active; protocol collection is controlled by the flags.
#[derive(Debug, PartialEq, Eq)]
pub struct ScanConfig {
    pub target: Option<String>,
    pub iface: Option<String>,
    pub profile: ScanProfile,
    pub timeout: u64,
    pub concurrency: usize,
    pub oui: bool,
    pub rdns: bool,
    pub mdns: bool,
    pub netbios: bool,
    pub upnp: bool,
    pub deep: bool,
    pub ssh: bool,
    pub http: bool,
    pub tls: bool,
    pub smb: bool,
    pub snmp: bool,
    pub snmp_community: String,
    pub lldp: bool,
    pub cdp: bool,
    pub dhcp: bool,
    pub dhcp_paths: Vec<String>,
    pub cache_enabled: bool,
    pub cache_path: String,
    pub oui_path: String,
}

/// The mathematical content of a [`ScanConfig`].
#[verifier::ext_equal]
pub struct ScanConfigView {
    pub target: Option<Seq<char>>,
    pub iface: Option<Seq<char>>,
    pub profile: ScanProfile,
    pub timeout: u64,
    pub concurrency: usize,
    pub oui: bool,
    pub rdns: bool,
    pub mdns: bool,
    pub netbios: bool,
    pub upnp: bool,
    pub deep: bool,
    pub ssh: bool,
    pub http: bool,
    pub tls: bool,
    pub smb: bool,
    pub snmp: bool,
    pub snmp_community: Seq<char>,
    pub lldp: bool,
    pub cdp: bool,
    pub dhcp: bool,
    pub dhcp_paths: Seq<Seq<char>>,
    pub cache_enabled: bool,
    pub cache_path: Seq<char>,
    pub oui_path: Seq<char>,
}

impl View for ScanConfig {
    type V = ScanConfigView;

    open spec fn view(&self) -> ScanConfigView {
        ScanConfigView {
            target: self.target.deep_view(),
            iface: self.iface.deep_view(),
            profile: self.profile,
            timeout: self.timeout,
            concurrency: self.concurrency,
            oui: self.oui,
            rdns: self.rdns,
            mdns: self.mdns,
            netbios: self.netbios,
            upnp: self.upnp,
            deep: self.deep,
            ssh: self.ssh,
            http: self.http,
            tls: self.tls,
            smb: self.smb,
            snmp: self.snmp,
            snmp_community: self.snmp_community@,
            lldp: self.lldp,
            cdp: self.cdp,
            dhcp: self.dhcp,
            dhcp_paths: self.dhcp_paths.deep_view(),
            cache_enabled: self.cache_enabled,
            cache_path: self.cache_path@,
            oui_path: self.oui_path@,
        }
    }
}

impl DeepView for ScanConfig {
    type V = ScanConfigView;

    open spec fn deep_view(&self) -> ScanConfigView {
        self@
    }
}

impl Clone for ScanConfig {
    fn clone(&self) -> (r: Self)
        ensures
            r@ == self@,
    {
        let r = ScanConfig {
            target: self.target.clone(),
            iface: self.iface.clone(),
            profile: self.profile,
            timeout: self.timeout,
            concurrency: self.concurrency,
            oui: self.oui,
            rdns: self.rdns,
            mdns: self.mdns,
            netbios: self.netbios,
            upnp: self.upnp,
            deep: self.deep,
            ssh: self.ssh,
            http: self.http,
            tls: self.tls,
            smb: self.smb,
            snmp: self.snmp,
            snmp_community: self.snmp_community.clone(),
            lldp: self.lldp,
            cdp: self.cdp,
            dhcp: self.dhcp,
            dhcp_paths: self.dhcp_paths.clone(),
            cache_enabled: self.cache_enabled,
            cache_path: self.cache_path.clone(),
            oui_path: self.oui_path.clone(),
        };
        proof {
            assert(r.target.deep_view() =~= self.target.deep_view());
            assert(r.iface.deep_view() =~= self.iface.deep_view());
            assert(r.dhcp_paths.deep_view() =~= self.dhcp_paths.deep_view());
        }
        r
    }
}

/// What happens during a scan.
pub enum ScanEvent {
    /// A scan begins.
    Started { target: String, interface: String, profile: ScanProfile },
    /// A round of a continuous scan begins.
    RoundStarted { round: u64 },
    /// A round of a continuous scan is over.
    RoundFinished { round: u64 },
    /// The scan enters a phase.
    Phase(String),
    /// Something new is known of a device.
    DeviceUpdated(Box<Device>),
    /// Something did not work.
    Warning(String),
    /// The scan is over.
    Finished { devices: Vec<Device>, warnings: Vec<String> },
}

/// The mathematical content of a [`ScanEvent`].
pub enum ScanEventView {
    Started { target: Seq<char>, interface: Seq<char>, profile: ScanProfile },
    RoundStarted { round: u64 },
    RoundFinished { round: u64 },
    Phase(Seq<char>),
    DeviceUpdated(DeviceView),
    Warning(Seq<char>),
    Finished { devices: Seq<DeviceView>, warnings: Seq<Seq<char>> },
}

impl View for ScanEvent {
    type V = ScanEventView;

    open spec fn view(&self) -> ScanEventView {
        match self {
            ScanEvent::Started { target, interface, profile } => ScanEventView::Started {
                target: target@,
                interface: interface@,
                profile: *profile,
            },
            ScanEvent::RoundStarted { round } => ScanEventView::RoundStarted { round: *round },
            ScanEvent::RoundFinished { round } => ScanEventView::RoundFinished { round: *round },
            ScanEvent::Phase(phase) => ScanEventView::Phase(phase@),
            ScanEvent::DeviceUpdated(device) => ScanEventView::DeviceUpdated((**device)@),
            ScanEvent::Warning(warning) => ScanEventView::Warning(warning@),
            ScanEvent::Finished { devices, warnings } => ScanEventView::Finished {
                devices: devices.deep_view(),
                warnings: warnings.deep_view(),
            },
        }
    }
}

impl DeepView for ScanEvent {
    type V = ScanEventView;

    open spec fn deep_view(&self) -> ScanEventView {
        self@
    }
}

} // verus!
