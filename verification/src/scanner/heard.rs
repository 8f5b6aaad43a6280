//! What advertisements on the wire and the scans of several interfaces come to.

use crate::addr::{IpAddr, Ipv4Net};
use crate::discovery::cdp::CdpInfoView;
use crate::discovery::l2::L2AdvertisementView;
use crate::discovery::lldp::LldpInfoView;
use crate::model::{DeviceView, ScanResultView, Timestamp};
use crate::scanner::multi::MultiScanView;
use crate::scanner::multi;
use crate::scanner::passive::{AddressOrder, PassiveObservationView};
use crate::scanner::passive;
use crate::scanner::phases;
use crate::scanner::types::ScanEventView;
use crate::sort;
use crate::text;
use vstd::prelude::*;

verus! {

/// An LLDP advertisement is about its management addresses, its chassis, and its sender;
/// it holds for as long as it says, or for two minutes.
pub proof fn law_lldp_is_observed(info: LldpInfoView, at: Timestamp, x: Seq<char>)
    ensures
        ({
            let o = PassiveObservationView::from_advertisement(L2AdvertisementView::Lldp(info), at);
            &&& o.received_at == at
            &&& info.ttl is Some ==> o.ttl == info.ttl->0
            &&& info.ttl is None ==> o.ttl == 120
            &&& o.candidate_ips == info.management_addresses
            &&& o.candidate_macs.contains(x) <==> x == info.source_mac || info.chassis_mac == Some(x)
            &&& o.advertisement == L2AdvertisementView::Lldp(info)
        }),
{
    let macs = passive::lldp_macs(info);
    match info.chassis_mac {
        Some(mac) => {
            assert(macs[0] == mac && macs[1] == info.source_mac);
        },
        None => {
            assert(macs[0] == info.source_mac);
        },
    }
}

/// A CDP advertisement is about all of its addresses and its sender; it holds for as long
/// as it says.
pub proof fn law_cdp_is_observed(info: CdpInfoView, at: Timestamp, ip: IpAddr)
    ensures
        ({
            let o = PassiveObservationView::from_advertisement(L2AdvertisementView::Cdp(info), at);
            &&& o.received_at == at
            &&& o.ttl == info.ttl
            &&& o.candidate_ips.contains(ip) <==> info.addresses.contains(ip)
                || info.management_addresses.contains(ip)
            &&& o.candidate_macs == seq![info.source_mac]
            &&& o.advertisement == L2AdvertisementView::Cdp(info)
        }),
{
    let a = info.management_addresses;
    let b = info.addresses;
    let all = a + b;
    if a.contains(ip) {
        let k = choose|k: int| 0 <= k < a.len() && a[k] == ip;
        assert(all[k] == ip);
    }
    if b.contains(ip) {
        let k = choose|k: int| 0 <= k < b.len() && b[k] == ip;
        assert(all[a.len() + k] == ip);
    }
    if all.contains(ip) {
        let k = choose|k: int| 0 <= k < all.len() && all[k] == ip;
        if k < a.len() {
            assert(a[k] == ip);
        } else {
            assert(b[k - a.len()] == ip);
        }
    }
}

/// The advertisements that still hold are those whose time has not run out: so many
/// seconds after they were heard.
pub proof fn law_advertisements_hold_for_their_time(
    all: Seq<PassiveObservationView>,
    now: Timestamp,
    o: PassiveObservationView,
)
    ensures
        passive::unexpired(all, now).contains(o) <==> all.contains(o) && now < o.received_at + o.ttl
            * 1_000_000_000,
    decreases all.len(),
{
    if all.len() > 0 {
        let front = all.drop_last();
        let before = passive::unexpired(front, now);
        let after = passive::unexpired(all, now);
        law_advertisements_hold_for_their_time(front, now, o);
        assert(all[all.len() - 1] == all.last());
        if front.contains(o) {
            let k = choose|k: int| 0 <= k < front.len() && front[k] == o;
            assert(all[k] == o);
        }
        if before.contains(o) {
            let k = choose|k: int| 0 <= k < before.len() && before[k] == o;
            assert(after[k] == o);
        }
        if all.contains(o) && o != all.last() {
            let k = choose|k: int| 0 <= k < all.len() && all[k] == o;
            assert(front[k] == o);
        }
        if o == all.last() && !o.expired(now) {
            assert(after[before.len() as int] == o);
        }
        if after.contains(o) && !before.contains(o) {
            let k = choose|k: int| 0 <= k < after.len() && after[k] == o;
            if k < before.len() {
                assert(before[k] == o);
            }
        }
    }
}

/// A device has one of several MAC addresses, whatever separates the digits.
pub open spec fn has_one(d: DeviceView, macs: Seq<Seq<char>>) -> bool {
    exists|i: int|
        0 <= i < macs.len() && d.mac is Some && text::hex_digits_spec(d.mac->0)
            == text::hex_digits_spec(#[trigger] macs[i])
}

/// An advertisement is about a device that has one of its addresses or one of its MAC
/// addresses.
pub proof fn law_advertisement_is_about_its_device(o: PassiveObservationView, d: DeviceView)
    ensures
        o.about(d) <==> o.candidate_ips.contains(d.ip) || has_one(d, o.candidate_macs),
{
    let macs = o.candidate_macs;
    if has_one(d, macs) {
        let i = choose|i: int|
            0 <= i < macs.len() && d.mac is Some && text::hex_digits_spec(d.mac->0)
                == text::hex_digits_spec(#[trigger] macs[i]);
        assert(passive::has_mac(d, macs[i]));
    }
    if exists|i: int| 0 <= i < macs.len() && passive::has_mac(d, #[trigger] macs[i]) {
        let i = choose|i: int| 0 <= i < macs.len() && passive::has_mac(d, #[trigger] macs[i]);
        assert(text::hex_digits_spec(d.mac->0) == text::hex_digits_spec(macs[i]));
    }
}

/// An address lies in one of several networks.
pub open spec fn in_one(targets: Seq<Ipv4Net>, ip: IpAddr) -> bool {
    exists|i: int| 0 <= i < targets.len() && phases::in_target(#[trigger] targets[i], ip)
}

/// What addresses there are with one more.
proof fn lemma_with_ip(ips: Seq<IpAddr>, new: IpAddr, ip: IpAddr)
    ensures
        passive::with_ip(ips, new).contains(ip) <==> ips.contains(ip) || ip == new,
{
    if !ips.contains(new) {
        if ips.contains(ip) || ip == new {
            sort::lemma_insert_keeps::<IpAddr, AddressOrder>(ips, new, ip);
        }
        if passive::with_ip(ips, new).contains(ip) {
            sort::lemma_insert_members::<IpAddr, AddressOrder>(ips, new, ip);
        }
    }
}

/// What addresses there are with those of one network.
proof fn lemma_with_candidates(
    ips: Seq<IpAddr>,
    target: Ipv4Net,
    candidates: Seq<IpAddr>,
    ip: IpAddr,
)
    ensures
        passive::with_candidates(ips, target, candidates).contains(ip) <==> ips.contains(ip) || (
        candidates.contains(ip) && phases::in_target(target, ip)),
    decreases candidates.len(),
{
    if candidates.len() > 0 {
        let front = candidates.drop_last();
        lemma_with_candidates(ips, target, front, ip);
        lemma_with_ip(passive::with_candidates(ips, target, front), candidates.last(), ip);
        assert(candidates[candidates.len() - 1] == candidates.last());
        if front.contains(ip) {
            let k = choose|k: int| 0 <= k < front.len() && front[k] == ip;
            assert(candidates[k] == ip);
        }
        if candidates.contains(ip) && ip != candidates.last() {
            let k = choose|k: int| 0 <= k < candidates.len() && candidates[k] == ip;
            assert(front[k] == ip);
        }
    }
}

/// What addresses there are with those of several networks.
proof fn lemma_with_targets(
    ips: Seq<IpAddr>,
    targets: Seq<Ipv4Net>,
    candidates: Seq<IpAddr>,
    ip: IpAddr,
)
    ensures
        passive::with_targets(ips, targets, candidates).contains(ip) <==> ips.contains(ip) || (
        candidates.contains(ip) && in_one(targets, ip)),
    decreases targets.len(),
{
    if targets.len() > 0 {
        let front = targets.drop_last();
        lemma_with_targets(ips, front, candidates, ip);
        lemma_with_candidates(
            passive::with_targets(ips, front, candidates),
            targets.last(),
            candidates,
            ip,
        );
        assert(targets[targets.len() - 1] == targets.last());
        if in_one(front, ip) {
            let i = choose|i: int|
                0 <= i < front.len() && phases::in_target(#[trigger] front[i], ip);
            assert(targets[i] == front[i]);
        }
        if in_one(targets, ip) {
            let i = choose|i: int|
                0 <= i < targets.len() && phases::in_target(#[trigger] targets[i], ip);
            if i < front.len() {
                assert(front[i] == targets[i]);
            }
        }
    }
}

/// The first device with a MAC address is at an address.
pub open spec fn first_with_mac_is_at(
    devices: Seq<DeviceView>,
    mac: Seq<char>,
    ip: IpAddr,
) -> bool {
    exists|k: int|
        0 <= k < devices.len() && (#[trigger] devices[k]).ip == ip && passive::has_mac(
            devices[k],
            mac,
        ) && forall|j: int| 0 <= j < k ==> !passive::has_mac(#[trigger] devices[j], mac)
}

/// Where the first device with a MAC address stands.
proof fn lemma_mac_place(devices: Seq<DeviceView>, mac: Seq<char>)
    ensures
        0 <= passive::mac_place(devices, mac) <= devices.len(),
        passive::mac_place(devices, mac) < devices.len() ==> passive::has_mac(
            devices[passive::mac_place(devices, mac)],
            mac,
        ),
        forall|j: int|
            0 <= j < passive::mac_place(devices, mac) ==> !passive::has_mac(
                #[trigger] devices[j],
                mac,
            ),
    decreases devices.len(),
{
    if devices.len() > 0 && !passive::has_mac(devices[0], mac) {
        let tail = devices.drop_first();
        lemma_mac_place(tail, mac);
        assert forall|j: int| 0 <= j < passive::mac_place(devices, mac) implies !passive::has_mac(
            #[trigger] devices[j],
            mac,
        ) by {
            if j > 0 {
                assert(tail[j - 1] == devices[j]);
            }
        }
    }
}

/// What addresses there are with those of known devices.
proof fn lemma_with_macs(
    ips: Seq<IpAddr>,
    macs: Seq<Seq<char>>,
    devices: Seq<DeviceView>,
    ip: IpAddr,
)
    ensures
        passive::with_macs(ips, macs, devices).contains(ip) <==> ips.contains(ip) || exists|i: int|
            0 <= i < macs.len() && first_with_mac_is_at(devices, #[trigger] macs[i], ip),
    decreases macs.len(),
{
    if macs.len() > 0 {
        let front = macs.drop_last();
        let mac = macs.last();
        let k = passive::mac_place(devices, mac);
        lemma_with_macs(ips, front, devices, ip);
        lemma_mac_place(devices, mac);
        if k < devices.len() {
            lemma_with_ip(passive::with_macs(ips, front, devices), devices[k].ip, ip);
        }
        assert(first_with_mac_is_at(devices, mac, ip) <==> k < devices.len() && devices[k].ip == ip)
            by {
            if first_with_mac_is_at(devices, mac, ip) {
                let m = choose|m: int|
                    0 <= m < devices.len() && (#[trigger] devices[m]).ip == ip && passive::has_mac(
                        devices[m],
                        mac,
                    ) && forall|j: int| 0 <= j < m ==> !passive::has_mac(#[trigger] devices[j], mac);
                if m < k {
                    assert(!passive::has_mac(devices[m], mac));
                } else if k < m {
                    assert(!passive::has_mac(devices[k], mac));
                }
            }
        }
        assert(macs[macs.len() - 1] == mac);
        if exists|i: int|
            0 <= i < front.len() && first_with_mac_is_at(devices, #[trigger] front[i], ip) {
            let i = choose|i: int|
                0 <= i < front.len() && first_with_mac_is_at(devices, #[trigger] front[i], ip);
            assert(macs[i] == front[i]);
        }
        if exists|i: int|
            0 <= i < macs.len() && first_with_mac_is_at(devices, #[trigger] macs[i], ip) {
            let i = choose|i: int|
                0 <= i < macs.len() && first_with_mac_is_at(devices, #[trigger] macs[i], ip);
            if i < front.len() {
                assert(front[i] == macs[i]);
            }
        }
    }
}

/// An advertisement is added at those of its addresses that are scanned, and at the
/// addresses of the known devices with its MAC addresses; nowhere else.
pub proof fn law_advertisement_goes_to_its_addresses(
    o: PassiveObservationView,
    devices: Seq<DeviceView>,
    targets: Seq<Ipv4Net>,
    ip: IpAddr,
)
    ensures
        o.target_ips(devices, targets).contains(ip) <==> (o.candidate_ips.contains(ip) && in_one(
            targets,
            ip,
        )) || exists|i: int|
            0 <= i < o.candidate_macs.len() && first_with_mac_is_at(
                devices,
                #[trigger] o.candidate_macs[i],
                ip,
            ),
{
    let none = Seq::<IpAddr>::empty();
    lemma_with_targets(none, targets, o.candidate_ips, ip);
    lemma_with_macs(
        passive::with_targets(none, targets, o.candidate_ips),
        o.candidate_macs,
        devices,
        ip,
    );
}

/// The scan of one more interface adds its target, its name, its devices, and its
/// warnings under its name; nothing else changes, and nothing is lost.
pub proof fn law_child_scan_is_added(t: MultiScanView, child: ScanResultView, w: Seq<char>)
    ensures
        ({
            let after = t.with_child(child);
            &&& after.targets == t.targets + seq![child.target]
            &&& after.interfaces == t.interfaces + seq![child.interface]
            &&& after.devices == t.devices + child.devices
            &&& after.warnings.contains(w) <==> t.warnings.contains(w) || exists|i: int|
                0 <= i < child.warnings.len() && w == child.interface + seq![':', ' ']
                    + #[trigger] child.warnings[i]
            &&& after.cache_enabled == t.cache_enabled && after.scanned_at == t.scanned_at
        }),
{
    assert(t.targets.push(child.target) =~= t.targets + seq![child.target]);
    assert(t.interfaces.push(child.interface) =~= t.interfaces + seq![child.interface]);
    lemma_child_warnings(t.warnings, child.interface, child.warnings, w);
}

/// The warnings of one more interface.
proof fn lemma_child_warnings(
    warnings: Seq<Seq<char>>,
    interface: Seq<char>,
    more: Seq<Seq<char>>,
    w: Seq<char>,
)
    ensures
        multi::with_child_warnings(warnings, interface, more).contains(w) <==> warnings.contains(w)
            || exists|i: int|
            0 <= i < more.len() && w == interface + seq![':', ' '] + #[trigger] more[i],
    decreases more.len(),
{
    reveal_strlit(": ");
    assert(": "@ =~= seq![':', ' ']);
    if more.len() > 0 {
        let front = more.drop_last();
        let before = multi::with_child_warnings(warnings, interface, front);
        let after = multi::with_child_warnings(warnings, interface, more);
        let new = interface + ": "@ + more.last();
        lemma_child_warnings(warnings, interface, front, w);
        assert(more[more.len() - 1] == more.last());
        assert(after.contains(w) <==> before.contains(w) || w == new) by {
            if !before.contains(new) {
                assert(after[before.len() as int] == new);
                if before.contains(w) {
                    let k = choose|k: int| 0 <= k < before.len() && before[k] == w;
                    assert(after[k] == w);
                }
                if after.contains(w) && !before.contains(w) {
                    let k = choose|k: int| 0 <= k < after.len() && after[k] == w;
                    if k < before.len() {
                        assert(before[k] == w);
                    }
                }
            }
        }
        if exists|i: int|
            0 <= i < front.len() && w == interface + seq![':', ' '] + #[trigger] front[i] {
            let i = choose|i: int|
                0 <= i < front.len() && w == interface + seq![':', ' '] + #[trigger] front[i];
            assert(more[i] == front[i]);
        }
        if exists|i: int|
            0 <= i < more.len() && w == interface + seq![':', ' '] + #[trigger] more[i] {
            let i = choose|i: int|
                0 <= i < more.len() && w == interface + seq![':', ' '] + #[trigger] more[i];
            if i < front.len() {
                assert(front[i] == more[i]);
            }
        }
    }
}

/// A scan that is to say so says at its end what it found.
pub proof fn law_end_is_announced(t: MultiScanView, events: Seq<ScanEventView>)
    ensures
        t.emit_finished ==> t.done(events) == events + seq![
            ScanEventView::Finished { devices: t.devices, warnings: t.warnings },
        ],
        !t.emit_finished ==> t.done(events) == events,
{
    if t.emit_finished {
        assert(t.done(events) =~= events + seq![
            ScanEventView::Finished { devices: t.devices, warnings: t.warnings },
        ]);
    }
}

/// What the scan of one interface says is passed on under the name of the interface:
/// phases and warnings with it in front, devices as they are, and nothing of rounds and of
/// the end.
pub proof fn law_events_are_passed_on(
    interface: Seq<char>,
    words: Seq<char>,
    d: DeviceView,
    round: u64,
    devices: Seq<DeviceView>,
    warnings: Seq<Seq<char>>,
)
    ensures
        phases::forwarded(interface, ScanEventView::Phase(words)) == Some(
            ScanEventView::Phase(interface + seq![':', ' '] + words),
        ),
        phases::forwarded(interface, ScanEventView::Warning(words)) == Some(
            ScanEventView::Warning(interface + seq![':', ' '] + words),
        ),
        phases::forwarded(interface, ScanEventView::DeviceUpdated(d)) == Some(
            ScanEventView::DeviceUpdated(d),
        ),
        phases::forwarded(interface, ScanEventView::RoundStarted { round }) is None,
        phases::forwarded(interface, ScanEventView::RoundFinished { round }) is None,
        phases::forwarded(interface, ScanEventView::Finished { devices, warnings }) is None,
{
    reveal_strlit(": ");
    assert(": "@ =~= seq![':', ' ']);
}

} // verus!
