//! How configurations follow from the command line.

use crate::cli::{FingerprintSourceArg, ScanArgsView};
use crate::cli;
use crate::net;
use crate::scanner::types::{ScanConfigView, ScanProfile};
use crate::text;
use vstd::prelude::*;

verus! {

/// A source is used where it is named, or where no source is.
pub open spec fn wanted(args: ScanArgsView, source: FingerprintSourceArg) -> bool {
    args.fingerprints.len() == 0 || args.fingerprints.contains(source)
}

/// A source of announcements is used where it is named, or where no source is and the
/// scan is deep.
pub open spec fn wanted_deep(args: ScanArgsView, source: FingerprintSourceArg) -> bool {
    if args.fingerprints.len() == 0 {
        args.profile == ScanProfile::Deep
    } else {
        args.fingerprints.contains(source)
    }
}

/// A configuration follows from the command line.
pub open spec fn follows(
    c: ScanConfigView,
    args: ScanArgsView,
    timeout: u64,
    cache_path: Seq<char>,
    oui_path: Seq<char>,
) -> bool {
    &&& c.oui == wanted(args, FingerprintSourceArg::Oui)
    &&& c.rdns == wanted(args, FingerprintSourceArg::Rdns)
    &&& c.mdns == wanted(args, FingerprintSourceArg::Mdns)
    &&& c.netbios == wanted(args, FingerprintSourceArg::Netbios)
    &&& c.upnp == wanted(args, FingerprintSourceArg::Upnp)
    &&& c.snmp == wanted(args, FingerprintSourceArg::Snmp)
    &&& c.dhcp == wanted(args, FingerprintSourceArg::Dhcp)
    &&& c.lldp == wanted_deep(args, FingerprintSourceArg::Lldp)
    &&& c.cdp == wanted_deep(args, FingerprintSourceArg::Cdp)
    &&& c.deep == (args.profile == ScanProfile::Deep)
    &&& c.ssh == c.deep && c.http == c.deep && c.tls == c.deep && c.smb == c.deep
    &&& c.profile == args.profile
    &&& c.timeout == timeout
    &&& c.concurrency == args.concurrency
    &&& c.snmp_community == args.snmp_community
    &&& c.dhcp_paths == args.dhcp_leases
    &&& c.cache_path == cache_path
    &&& c.oui_path == oui_path
    &&& c.cache_enabled
}

/// Every configuration follows from the command line: each source is used as it is named,
/// deep probes go with the deep profile, and the interface and the target are among those
/// of the scan.
pub proof fn law_configurations_follow_from_arguments(
    args: ScanArgsView,
    timeout: u64,
    cache_path: Seq<char>,
    oui_path: Seq<char>,
    interfaces: Seq<Seq<char>>,
    targets: Seq<Option<Seq<char>>>,
    c: ScanConfigView,
)
    requires
        cli::configs_spec(args, timeout, cache_path, oui_path, interfaces, targets).contains(c),
    ensures
        follows(c, args, timeout, cache_path, oui_path),
        c.iface is Some && interfaces.contains(c.iface->0),
        targets.contains(c.target),
    decreases interfaces.len(),
{
    let all = cli::configs_spec(args, timeout, cache_path, oui_path, interfaces, targets);
    let k = choose|k: int| 0 <= k < all.len() && all[k] == c;
    if interfaces.len() > 0 {
        let before = cli::configs_spec(
            args,
            timeout,
            cache_path,
            oui_path,
            interfaces.drop_last(),
            targets,
        );
        if k < before.len() {
            assert(before[k] == c);
            law_configurations_follow_from_arguments(
                args,
                timeout,
                cache_path,
                oui_path,
                interfaces.drop_last(),
                targets,
                c,
            );
            let i = choose|i: int|
                0 <= i < interfaces.drop_last().len() && interfaces.drop_last()[i] == c.iface->0;
            assert(interfaces[i] == c.iface->0);
        } else {
            let j = k - before.len();
            assert(c == cli::config_spec(
                args,
                timeout,
                cache_path,
                oui_path,
                interfaces.last(),
                targets[j],
            ));
            assert(interfaces[interfaces.len() - 1] == c.iface->0);
            assert(targets[j] == c.target);
        }
    }
}

/// Every range of the command line is a target, in order and in normal form; one that
/// names no network is the error of all.
pub proof fn law_ranges_are_targets(ranges: Seq<Seq<char>>, i: int)
    requires
        0 <= i < ranges.len(),
    ensures
        ({
            let read = cli::ranges_spec(ranges);
            &&& read is Ok ==> read->Ok_0.len() == ranges.len()
            &&& read is Ok ==> net::target_spec(ranges[i]) is Some && read->Ok_0[i] == Some(
                net::target_spec(ranges[i])->0.text_spec(),
            )
            &&& net::target_spec(ranges[i]) is None ==> read is Err
        }),
    decreases ranges.len(),
{
    let front = ranges.drop_last();
    lemma_ranges_len(front);
    if i < front.len() {
        law_ranges_are_targets(front, i);
        assert(front[i] == ranges[i]);
    }
}

/// There are as many targets as ranges.
proof fn lemma_ranges_len(ranges: Seq<Seq<char>>)
    ensures
        cli::ranges_spec(ranges) is Ok ==> cli::ranges_spec(ranges)->Ok_0.len() == ranges.len(),
    decreases ranges.len(),
{
    if ranges.len() > 0 {
        lemma_ranges_len(ranges.drop_last());
    }
}

/// The interfaces of a scan are those that its configurations name, each once and in
/// order; where none does, the default one.
pub proof fn law_scan_interfaces_are_named(
    configs: Seq<ScanConfigView>,
    default_interface: Option<Seq<char>>,
    x: Seq<char>,
)
    ensures
        ({
            let shown = cli::scan_interfaces_spec(configs, default_interface);
            let some = exists|i: int| 0 <= i < configs.len() && (#[trigger] configs[i]).iface is Some;
            &&& some ==> (shown.contains(x) <==> exists|i: int|
                0 <= i < configs.len() && (#[trigger] configs[i]).iface == Some(x))
            &&& some ==> text::increasing(shown)
            &&& !some && default_interface is Some ==> shown == seq![default_interface->0]
            &&& !some && default_interface is None ==> shown.len() == 0
        }),
{
    let names = cli::named_interfaces(configs);
    lemma_named(configs, x);
    text::lemma_sorted_set(names);
    if exists|i: int| 0 <= i < configs.len() && (#[trigger] configs[i]).iface is Some {
        let i = choose|i: int| 0 <= i < configs.len() && (#[trigger] configs[i]).iface is Some;
        lemma_named(configs, configs[i].iface->0);
        assert(names.contains(configs[i].iface->0));
    } else if names.len() > 0 {
        lemma_named(configs, names[0]);
        assert(names.contains(names[0]));
        let i = choose|i: int|
            0 <= i < configs.len() && (#[trigger] configs[i]).iface == Some(names[0]);
        assert(configs[i].iface is Some);
    }
}

/// The names of interfaces.
proof fn lemma_named(configs: Seq<ScanConfigView>, x: Seq<char>)
    ensures
        cli::named_interfaces(configs).contains(x) <==> exists|i: int|
            0 <= i < configs.len() && (#[trigger] configs[i]).iface == Some(x),
    decreases configs.len(),
{
    if configs.len() > 0 {
        let front = configs.drop_last();
        let before = cli::named_interfaces(front);
        let names = cli::named_interfaces(configs);
        lemma_named(front, x);
        assert(configs[configs.len() - 1] == configs.last());
        if before.contains(x) {
            let k = choose|k: int| 0 <= k < before.len() && before[k] == x;
            assert(names[k] == x);
            let i = choose|i: int|
                0 <= i < front.len() && (#[trigger] front[i]).iface == Some(x);
            assert(configs[i] == front[i]);
        }
        if exists|i: int| 0 <= i < configs.len() && (#[trigger] configs[i]).iface == Some(x) {
            let i = choose|i: int|
                0 <= i < configs.len() && (#[trigger] configs[i]).iface == Some(x);
            if i < front.len() {
                assert(front[i] == configs[i]);
            } else {
                assert(names[before.len() as int] == x);
            }
        }
        if names.contains(x) && !before.contains(x) {
            let k = choose|k: int| 0 <= k < names.len() && names[k] == x;
            if k < before.len() {
                assert(before[k] == x);
            }
        }
    }
}

/// A probe waits for 650 milliseconds in a fast scan, 1200 in a normal one, and 2500 in a
/// deep one; profiles go by their names.
pub proof fn law_profiles_have_their_times(profile: ScanProfile)
    ensures
        profile.default_timeout_spec() == (if profile == ScanProfile::Fast {
            650u64
        } else if profile == ScanProfile::Normal {
            1200
        } else {
            2500
        }),
        profile == ScanProfile::Fast ==> profile.text_spec() == "fast"@,
        profile == ScanProfile::Normal ==> profile.text_spec() == "normal"@,
        profile == ScanProfile::Deep ==> profile.text_spec() == "deep"@,
{
}

} // verus!
