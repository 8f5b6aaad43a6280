//! From the command line to scan configurations.
//!
//! Defaults and validation stand beside the construction of [`ScanConfig`], so that they
//! describe the same behavior the scanner runs.

pub mod given;

use crate::net::{normalize_cidr_target, InterfaceInfo};
use crate::net;
use crate::output::live::interfaces::{LiveInterfacePanel, LiveInterfacePanelView};
use crate::output::privacy::{MacAddressDisplay, OutputOptions};
use crate::scanner::types::{ScanConfig, ScanConfigView, ScanProfile};
use crate::text::insert_sorted;
use crate::text;
use vstd::prelude::*;

verus! {

/// The form of the output.
#[derive(Clone, Copy, Debug, PartialEq, Eq, Structural)]
pub enum OutputArg {
    Table,
    Json,
    Csv,
}

/// When the live view is used.
#[derive(Clone, Copy, Debug, PartialEq, Eq, Structural)]
pub enum LiveOutputArg {
    /// For table output on a terminal.
    Auto,
    Always,
    Never,
}

/// A source of fingerprints.
#[derive(Clone, Copy, Debug, PartialEq, Eq, Structural)]
pub enum FingerprintSourceArg {
    Oui,
    Rdns,
    Mdns,
    Netbios,
    Upnp,
    Snmp,
    Lldp,
    Cdp,
    Dhcp,
}

/// The sources of fingerprints that a scan uses.
#[derive(Clone, Copy, Debug, PartialEq, Eq, Structural)]
pub struct FingerprintSelection {
    pub oui: bool,
    pub rdns: bool,
    pub mdns: bool,
    pub netbios: bool,
    pub upnp: bool,
    pub snmp: bool,
    pub lldp: bool,
    pub cdp: bool,
    pub dhcp: bool,
}

/// What the command line says of a scan.
#[derive(Debug, PartialEq, Eq)]
pub struct ScanArgs {
    pub ranges: Vec<String>,
    pub profile: ScanProfile,
    pub scan_interval_ms: u64,
    pub timeout_ms: Option<u64>,
    pub concurrency: usize,
    pub format: OutputArg,
    pub live: LiveOutputArg,
    pub mask_mac: bool,
    pub fingerprints: Vec<FingerprintSourceArg>,
    pub dhcp_leases: Vec<String>,
    pub snmp_community: String,
    pub interfaces: Vec<String>,
}

/// The mathematical content of a [`ScanArgs`].
#[verifier::ext_equal]
pub struct ScanArgsView {
    pub ranges: Seq<Seq<char>>,
    pub profile: ScanProfile,
    pub scan_interval_ms: u64,
    pub timeout_ms: Option<u64>,
    pub concurrency: usize,
    pub format: OutputArg,
    pub live: LiveOutputArg,
    pub mask_mac: bool,
    pub fingerprints: Seq<FingerprintSourceArg>,
    pub dhcp_leases: Seq<Seq<char>>,
    pub snmp_community: Seq<char>,
    pub interfaces: Seq<Seq<char>>,
}

impl View for ScanArgs {
    type V = ScanArgsView;

    open spec fn view(&self) -> ScanArgsView {
        ScanArgsView {
            ranges: self.ranges.deep_view(),
            profile: self.profile,
            scan_interval_ms: self.scan_interval_ms,
            timeout_ms: self.timeout_ms,
            concurrency: self.concurrency,
            format: self.format,
            live: self.live,
            mask_mac: self.mask_mac,
            fingerprints: self.fingerprints@,
            dhcp_leases: self.dhcp_leases.deep_view(),
            snmp_community: self.snmp_community@,
            interfaces: self.interfaces.deep_view(),
        }
    }
}

impl DeepView for ScanArgs {
    type V = ScanArgsView;

    open spec fn deep_view(&self) -> ScanArgsView {
        self@
    }
}


impl FingerprintSelection {
    /// A source is used.
    pub open spec fn uses(self, source: FingerprintSourceArg) -> bool {
        match source {
            FingerprintSourceArg::Oui => self.oui,
            FingerprintSourceArg::Rdns => self.rdns,
            FingerprintSourceArg::Mdns => self.mdns,
            FingerprintSourceArg::Netbios => self.netbios,
            FingerprintSourceArg::Upnp => self.upnp,
            FingerprintSourceArg::Snmp => self.snmp,
            FingerprintSourceArg::Lldp => self.lldp,
            FingerprintSourceArg::Cdp => self.cdp,
            FingerprintSourceArg::Dhcp => self.dhcp,
        }
    }

    /// The sources of a scan: those that were named, or where none was, those that
    /// suit the profile.
    pub open spec fn from_spec(sources: Seq<FingerprintSourceArg>, profile: ScanProfile) -> Self {
        if sources.len() == 0 {
            FingerprintSelection {
                oui: true,
                rdns: true,
                mdns: true,
                netbios: true,
                upnp: true,
                snmp: true,
                lldp: profile == ScanProfile::Deep,
                cdp: profile == ScanProfile::Deep,
                dhcp: true,
            }
        } else {
            FingerprintSelection {
                oui: sources.contains(FingerprintSourceArg::Oui),
                rdns: sources.contains(FingerprintSourceArg::Rdns),
                mdns: sources.contains(FingerprintSourceArg::Mdns),
                netbios: sources.contains(FingerprintSourceArg::Netbios),
                upnp: sources.contains(FingerprintSourceArg::Upnp),
                snmp: sources.contains(FingerprintSourceArg::Snmp),
                lldp: sources.contains(FingerprintSourceArg::Lldp),
                cdp: sources.contains(FingerprintSourceArg::Cdp),
                dhcp: sources.contains(FingerprintSourceArg::Dhcp),
            }
        }
    }

    /// Picks the sources of a scan.
    pub fn from_args(sources: &Vec<FingerprintSourceArg>, profile: ScanProfile) -> (r: Self)
        ensures
            r == FingerprintSelection::from_spec(sources@, profile),
    {
        if sources.len() == 0 {
            return FingerprintSelection {
                oui: true,
                rdns: true,
                mdns: true,
                netbios: true,
                upnp: true,
                snmp: true,
                lldp: profile.includes_lldp_fingerprints(),
                cdp: profile.includes_cdp_fingerprints(),
                dhcp: true,
            };
        }
        FingerprintSelection {
            oui: names_source(sources, FingerprintSourceArg::Oui),
            rdns: names_source(sources, FingerprintSourceArg::Rdns),
            mdns: names_source(sources, FingerprintSourceArg::Mdns),
            netbios: names_source(sources, FingerprintSourceArg::Netbios),
            upnp: names_source(sources, FingerprintSourceArg::Upnp),
            snmp: names_source(sources, FingerprintSourceArg::Snmp),
            lldp: names_source(sources, FingerprintSourceArg::Lldp),
            cdp: names_source(sources, FingerprintSourceArg::Cdp),
            dhcp: names_source(sources, FingerprintSourceArg::Dhcp),
        }
    }
}

/// Reports whether a source was named.
fn names_source(sources: &Vec<FingerprintSourceArg>, source: FingerprintSourceArg) -> (r: bool)
    ensures
        r == sources@.contains(source),
{
    let mut i: usize = 0;
    while i < sources.len()
        invariant
            i <= sources@.len(),
            forall|k: int| 0 <= k < i ==> sources@[k] != source,
        decreases sources@.len() - i,
    {
        if sources[i] == source {
            return true;
        }
        i = i + 1;
    }
    false
}

/// Sources that are named are an allowlist: exactly those are used, whatever the
/// profile is.
pub proof fn law_named_sources_are_an_allowlist(
    sources: Seq<FingerprintSourceArg>,
    profile: ScanProfile,
    source: FingerprintSourceArg,
)
    requires
        sources.len() > 0,
    ensures
        FingerprintSelection::from_spec(sources, profile).uses(source) <==> sources.contains(source),
{
}

/// Where no source is named, every source is used but those that only listen, which
/// the deepest profile alone uses.
pub proof fn law_passive_sources_need_the_deep_profile(
    profile: ScanProfile,
    source: FingerprintSourceArg,
)
    ensures
        FingerprintSelection::from_spec(seq![], profile).uses(source) <==> profile
            == ScanProfile::Deep || !(source == FingerprintSourceArg::Lldp || source
            == FingerprintSourceArg::Cdp),
{
}

/// Decides whether the live view is used: for table output, always, never, or where
/// the output is a terminal.
pub fn should_run_live_tui(
    format: OutputArg,
    live_mode: LiveOutputArg,
    stdout_is_terminal: bool,
) -> (r: bool)
    ensures
        r == (format == OutputArg::Table && match live_mode {
            LiveOutputArg::Auto => stdout_is_terminal,
            LiveOutputArg::Always => true,
            LiveOutputArg::Never => false,
        }),
{
    matches!(format, OutputArg::Table) && match live_mode {
        LiveOutputArg::Auto => stdout_is_terminal,
        LiveOutputArg::Always => true,
        LiveOutputArg::Never => false,
    }
}

/// Picks how output is shown.
pub fn output_options_from_args(args: &ScanArgs) -> (r: OutputOptions)
    ensures
        r.mac == (if args@.mask_mac {
            MacAddressDisplay::MaskLower24
        } else {
            MacAddressDisplay::Full
        }),
{
    OutputOptions {
        mac: if args.mask_mac {
            MacAddressDisplay::MaskLower24
        } else {
            MacAddressDisplay::Full
        },
    }
}

/// Picks the timeout of a scan in milliseconds: the one that was given, or that of the
/// profile.
pub fn scan_timeout(args: &ScanArgs) -> (r: u64)
    ensures
        r == (match args@.timeout_ms {
            Some(timeout) => timeout,
            None => args@.profile.default_timeout_spec(),
        }),
{
    match args.timeout_ms {
        Some(timeout) => timeout,
        None => args.profile.default_timeout(),
    }
}

/// The normalized ranges, or the error of the first that is none.
pub open spec fn ranges_spec(ranges: Seq<Seq<char>>) -> Result<Seq<Option<Seq<char>>>, Seq<char>>
    decreases ranges.len(),
{
    if ranges.len() == 0 {
        Ok(seq![])
    } else {
        match ranges_spec(ranges.drop_last()) {
            Err(e) => Err(e),
            Ok(front) => match net::target_spec(ranges.last()) {
                Some(net) => Ok(front.push(Some(net.text_spec()))),
                None => Err(net::target_error(ranges.last())),
            },
        }
    }
}

/// The targets of a scan: the ranges that were given, or where none was, the network of
/// each interface.
pub open spec fn targets_spec(ranges: Seq<Seq<char>>) -> Result<Seq<Option<Seq<char>>>, Seq<char>> {
    if ranges.len() == 0 {
        Ok(seq![None])
    } else {
        ranges_spec(ranges)
    }
}

/// The content of targets, or of why there are none.
pub open spec fn targets_view(r: Result<Vec<Option<String>>, String>) -> Result<
    Seq<Option<Seq<char>>>,
    Seq<char>,
> {
    match r {
        Ok(v) => Ok(v.deep_view()),
        Err(e) => Err(e@),
    }
}

/// An error among the first ranges is the error of all.
proof fn lemma_range_error(ranges: Seq<Seq<char>>, i: int)
    requires
        0 <= i <= ranges.len(),
        ranges_spec(ranges.take(i)) is Err,
    ensures
        ranges_spec(ranges) == ranges_spec(ranges.take(i)),
    decreases ranges.len(),
{
    if i == ranges.len() {
        assert(ranges.take(i) =~= ranges);
    } else {
        assert(ranges.drop_last().take(i) =~= ranges.take(i));
        lemma_range_error(ranges.drop_last(), i);
    }
}

/// Lists the targets of a scan. Each range becomes a separate scan unit, which keeps
/// evidence scoped to one pair of interface and range.
pub fn scan_targets_from_args(args: &ScanArgs) -> (r: Result<Vec<Option<String>>, String>)
    ensures
        targets_view(r) == targets_spec(args@.ranges),
{
    let mut targets: Vec<Option<String>> = Vec::new();
    if args.ranges.len() == 0 {
        targets.push(None);
        proof {
            assert(targets.deep_view() =~= seq![None]);
        }
        return Ok(targets);
    }
    let ghost views = args.ranges.deep_view();
    let mut i: usize = 0;
    proof {
        assert(targets.deep_view() =~= seq![]);
        assert(views.take(0) =~= seq![]);
    }
    while i < args.ranges.len()
        invariant
            i <= args.ranges@.len(),
            args.ranges@.len() > 0,
            views == args.ranges.deep_view(),
            views == args@.ranges,
            ranges_spec(views.take(i as int)) == Ok::<Seq<Option<Seq<char>>>, Seq<char>>(
                targets.deep_view(),
            ),
        decreases args.ranges@.len() - i,
    {
        proof {
            assert(views.take(i + 1).drop_last() =~= views.take(i as int));
            assert(views.take(i + 1).last() == args.ranges@[i as int]@);
        }
        match normalize_cidr_target(args.ranges[i].as_str()) {
            Ok(target) => {
                let ghost before = targets.deep_view();
                let ghost view = target@;
                targets.push(Some(target));
                proof {
                    assert(targets.deep_view() =~= before.push(Some(view)));
                }
            },
            Err(e) => {
                proof {
                    lemma_range_error(views, i + 1);
                }
                return Err(e);
            },
        }
        i = i + 1;
    }
    proof {
        assert(views.take(i as int) =~= views);
    }
    Ok(targets)
}

/// The configuration of one interface and one target.
pub open spec fn config_spec(
    args: ScanArgsView,
    timeout: u64,
    cache_path: Seq<char>,
    oui_path: Seq<char>,
    iface: Seq<char>,
    target: Option<Seq<char>>,
) -> ScanConfigView {
    let f = FingerprintSelection::from_spec(args.fingerprints, args.profile);
    let deep = args.profile == ScanProfile::Deep;
    ScanConfigView {
        target,
        iface: Some(iface),
        profile: args.profile,
        timeout,
        concurrency: args.concurrency,
        oui: f.oui,
        rdns: f.rdns,
        mdns: f.mdns,
        netbios: f.netbios,
        upnp: f.upnp,
        deep,
        ssh: deep,
        http: deep,
        tls: deep,
        smb: deep,
        snmp: f.snmp,
        snmp_community: args.snmp_community,
        lldp: f.lldp,
        cdp: f.cdp,
        dhcp: f.dhcp,
        dhcp_paths: args.dhcp_leases,
        cache_enabled: true,
        cache_path,
        oui_path,
    }
}

/// The configurations of every interface with every target, interface by interface.
pub open spec fn configs_spec(
    args: ScanArgsView,
    timeout: u64,
    cache_path: Seq<char>,
    oui_path: Seq<char>,
    interfaces: Seq<Seq<char>>,
    targets: Seq<Option<Seq<char>>>,
) -> Seq<ScanConfigView>
    decreases interfaces.len(),
{
    if interfaces.len() == 0 {
        seq![]
    } else {
        configs_spec(args, timeout, cache_path, oui_path, interfaces.drop_last(), targets)
            + Seq::new(
            targets.len(),
            |j: int|
                config_spec(args, timeout, cache_path, oui_path, interfaces.last(), targets[j]),
        )
    }
}

/// There are as many configurations as pairs of an interface and a target.
pub proof fn law_config_count(
    args: ScanArgsView,
    timeout: u64,
    cache_path: Seq<char>,
    oui_path: Seq<char>,
    interfaces: Seq<Seq<char>>,
    targets: Seq<Option<Seq<char>>>,
)
    ensures
        configs_spec(args, timeout, cache_path, oui_path, interfaces, targets).len()
            == interfaces.len() * targets.len(),
    decreases interfaces.len(),
{
    let t = targets.len() as int;
    if interfaces.len() > 0 {
        let n = interfaces.len() - 1;
        law_config_count(
            args,
            timeout,
            cache_path,
            oui_path,
            interfaces.drop_last(),
            targets,
        );
        assert((n + 1) * t == n * t + t) by (nonlinear_arith);
    } else {
        assert(0 * t == 0) by (nonlinear_arith);
    }
}

/// Each pair of an interface and a target has its configuration, which scopes the scan
/// to that pair.
pub proof fn law_each_pair_has_its_config(
    args: ScanArgsView,
    timeout: u64,
    cache_path: Seq<char>,
    oui_path: Seq<char>,
    interfaces: Seq<Seq<char>>,
    targets: Seq<Option<Seq<char>>>,
    i: int,
    j: int,
)
    requires
        0 <= i < interfaces.len(),
        0 <= j < targets.len(),
    ensures
        0 <= i * targets.len() + j < configs_spec(
            args,
            timeout,
            cache_path,
            oui_path,
            interfaces,
            targets,
        ).len(),
        configs_spec(args, timeout, cache_path, oui_path, interfaces, targets)[i * targets.len()
            + j] == config_spec(
            args,
            timeout,
            cache_path,
            oui_path,
            interfaces[i],
            targets[j],
        ),
    decreases interfaces.len(),
{
    let t = targets.len() as int;
    let front = interfaces.drop_last();
    law_config_count(args, timeout, cache_path, oui_path, front, targets);
    assert(0 <= i * t) by (nonlinear_arith)
        requires
            0 <= i,
            0 <= t,
    ;
    if i < front.len() {
        law_each_pair_has_its_config(
            args,
            timeout,
            cache_path,
            oui_path,
            front,
            targets,
            i,
            j,
        );
    }
}

/// The content of configurations, or of why there are none.
pub open spec fn configs_view(r: Result<Vec<ScanConfig>, String>) -> Result<
    Seq<ScanConfigView>,
    Seq<char>,
> {
    match r {
        Ok(v) => Ok(v.deep_view()),
        Err(e) => Err(e@),
    }
}

/// Builds the configuration of one interface and one target.
fn build_config(
    args: &ScanArgs,
    timeout: u64,
    cache_path: &String,
    oui_path: &String,
    iface: &String,
    target: &Option<String>,
) -> (r: ScanConfig)
    ensures
        r@ == config_spec(
            args@,
            timeout,
            cache_path@,
            oui_path@,
            iface@,
            target.deep_view(),
        ),
{
    let f = FingerprintSelection::from_args(&args.fingerprints, args.profile);
    let deep = args.profile.includes_deep_probes();
    let config = ScanConfig {
        target: target.clone(),
        iface: Some(iface.clone()),
        profile: args.profile,
        timeout,
        concurrency: args.concurrency,
        oui: f.oui,
        rdns: f.rdns,
        mdns: f.mdns,
        netbios: f.netbios,
        upnp: f.upnp,
        deep,
        ssh: deep,
        http: deep,
        tls: deep,
        smb: deep,
        snmp: f.snmp,
        snmp_community: args.snmp_community.clone(),
        lldp: f.lldp,
        cdp: f.cdp,
        dhcp: f.dhcp,
        dhcp_paths: args.dhcp_leases.clone(),
        cache_enabled: true,
        cache_path: cache_path.clone(),
        oui_path: oui_path.clone(),
    };
    proof {
        assert(config.target.deep_view() =~= target.deep_view());
        assert(config.dhcp_paths.deep_view() =~= args.dhcp_leases.deep_view());
    }
    config
}

/// Builds the configurations of a scan. Each one maps to one interface and one range,
/// so that evidence never crosses the bounds of either.
pub fn scan_configs_from_args(
    args: &ScanArgs,
    timeout: u64,
    cache_path: String,
    oui_path: String,
) -> (r: Result<Vec<ScanConfig>, String>)
    ensures
        configs_view(r) == (match targets_spec(args@.ranges) {
            Ok(targets) => Ok(
                configs_spec(
                    args@,
                    timeout,
                    cache_path@,
                    oui_path@,
                    args@.interfaces,
                    targets,
                ),
            ),
            Err(e) => Err(e),
        }),
{
    let targets = match scan_targets_from_args(args) {
        Ok(targets) => targets,
        Err(e) => return Err(e),
    };
    let ghost wanted = targets.deep_view();
    let ghost names = args.interfaces.deep_view();
    let mut configs: Vec<ScanConfig> = Vec::new();
    let mut i: usize = 0;
    proof {
        assert(configs.deep_view() =~= seq![]);
    }
    while i < args.interfaces.len()
        invariant
            i <= args.interfaces@.len(),
            names == args.interfaces.deep_view(),
            wanted == targets.deep_view(),
            configs.deep_view() == configs_spec(
                args@,
                timeout,
                cache_path@,
                oui_path@,
                names.take(i as int),
                wanted,
            ),
        decreases args.interfaces@.len() - i,
    {
        let ghost front = configs.deep_view();
        let ghost row = Seq::new(
            wanted.len(),
            |j: int|
                config_spec(
                    args@,
                    timeout,
                    cache_path@,
                    oui_path@,
                    names.take(i + 1).last(),
                    wanted[j],
                ),
        );
        let mut j: usize = 0;
        proof {
            assert(front + row.take(0) =~= front);
            assert(names.take(i + 1).drop_last() =~= names.take(i as int));
            assert(names.take(i + 1).last() == args.interfaces@[i as int]@);
        }
        while j < targets.len()
            invariant
                i < args.interfaces@.len(),
                j <= targets@.len(),
                wanted == targets.deep_view(),
                names.take(i + 1).last() == args.interfaces@[i as int]@,
                row == Seq::new(
                    wanted.len(),
                    |j: int|
                        config_spec(
                            args@,
                            timeout,
                            cache_path@,
                            oui_path@,
                            names.take(i + 1).last(),
                            wanted[j],
                        ),
                ),
                configs.deep_view() == front + row.take(j as int),
            decreases targets@.len() - j,
        {
            let ghost before = configs.deep_view();
            configs.push(
                build_config(
                    args,
                    timeout,
                    &cache_path,
                    &oui_path,
                    &args.interfaces[i],
                    &targets[j],
                ),
            );
            proof {
                assert(wanted[j as int] == targets@[j as int].deep_view());
                assert(configs.deep_view() =~= before.push(row[j as int]));
                assert(configs.deep_view() =~= front + row.take(j + 1));
            }
            j = j + 1;
        }
        proof {
            assert(row.take(j as int) =~= row);
            assert(configs.deep_view() =~= configs_spec(
                args@,
                timeout,
                cache_path@,
                oui_path@,
                names.take(i + 1),
                wanted,
            ));
        }
        i = i + 1;
    }
    proof {
        assert(names.take(i as int) =~= names);
    }
    Ok(configs)
}

/// The interfaces that configurations name.
pub open spec fn named_interfaces(configs: Seq<ScanConfigView>) -> Seq<Seq<char>>
    decreases configs.len(),
{
    if configs.len() == 0 {
        seq![]
    } else {
        match configs.last().iface {
            Some(iface) => named_interfaces(configs.drop_last()).push(iface),
            None => named_interfaces(configs.drop_last()),
        }
    }
}

/// The interfaces that a scan uses: those that are named, or the default one.
pub open spec fn scan_interfaces_spec(
    configs: Seq<ScanConfigView>,
    default_interface: Option<Seq<char>>,
) -> Seq<Seq<char>> {
    let named = named_interfaces(configs);
    if named.len() > 0 {
        text::sorted_set_spec(named)
    } else {
        match default_interface {
            Some(name) => seq![name],
            None => seq![],
        }
    }
}

/// Builds the interface panel of the live view: in alphabetical order, each interface
/// that is scanned once.
pub fn live_interface_panel(
    configs: &Vec<ScanConfig>,
    interfaces: Vec<InterfaceInfo>,
    default_interface: Option<String>,
) -> (r: LiveInterfacePanel)
    ensures
        r@ == (LiveInterfacePanelView {
            interfaces: interfaces.deep_view(),
            default_interface: default_interface.deep_view(),
            scan_interfaces: scan_interfaces_spec(
                configs.deep_view(),
                default_interface.deep_view(),
            ),
        }),
{
    let ghost views = configs.deep_view();
    let mut names: Vec<String> = Vec::new();
    let mut any = false;
    let mut i: usize = 0;
    proof {
        assert(views.take(0) =~= seq![]);
        assert(names.deep_view() =~= text::sorted_set_spec(named_interfaces(views.take(0))));
    }
    while i < configs.len()
        invariant
            i <= configs@.len(),
            views == configs.deep_view(),
            names.deep_view() == text::sorted_set_spec(named_interfaces(views.take(i as int))),
            any == (named_interfaces(views.take(i as int)).len() > 0),
        decreases configs@.len() - i,
    {
        proof {
            assert(views.take(i + 1).drop_last() =~= views.take(i as int));
            assert(views.take(i + 1).last() == configs@[i as int]@);
        }
        match &configs[i].iface {
            Some(iface) => {
                insert_sorted(&mut names, iface.clone());
                any = true;
                proof {
                    let front = named_interfaces(views.take(i as int));
                    assert(front.push(iface@).drop_last() =~= front);
                }
            },
            None => {},
        }
        i = i + 1;
    }
    proof {
        assert(views.take(i as int) =~= views);
    }
    if !any {
        match &default_interface {
            Some(name) => {
                proof {
                    assert(named_interfaces(views) =~= seq![]);
                    assert(names.deep_view() =~= seq![]);
                }
                names.push(name.clone());
                proof {
                    assert(names.deep_view() =~= seq![name@]);
                }
            },
            None => {
                proof {
                    assert(named_interfaces(views) =~= seq![]);
                    assert(names.deep_view() =~= seq![]);
                }
            },
        }
    }
    LiveInterfacePanel { interfaces, default_interface, scan_interfaces: names }
}

} // verus!
