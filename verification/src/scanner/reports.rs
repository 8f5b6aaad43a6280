//! What a scan makes of what is reported to it.
//!
//! The laws here speak of the devices of a session before and after a report, host by
//! host.

use crate::addr::IpAddr;
use crate::dhcp::DhcpLeaseView;
use crate::discovery::l2::L2AdvertisementView;
use crate::discovery::ArpHitView;
use crate::enrich::oui;
use crate::identity_rules;
use crate::model::{DeviceView, Timestamp};
use crate::model;
use crate::scanner::apply;
use crate::scanner::phases;
use crate::scanner::roster;
use crate::scanner::session::{
    HostUpdateView, ScanActionView, ScanContextView, ScanInputView, ScanSessionView, ScanStage,
};
use crate::scanner::session;
use crate::scanner::told;
use crate::scanner::types::ScanEventView;
use vstd::prelude::*;

verus! {

/// The device with an address.
pub open spec fn device_at(list: Seq<DeviceView>, ip: IpAddr) -> Option<DeviceView> {
    if exists|i: int| 0 <= i < list.len() && (#[trigger] list[i]).ip == ip {
        Some(list[choose|i: int| 0 <= i < list.len() && (#[trigger] list[i]).ip == ip])
    } else {
        None
    }
}

/// The device at a position is the one with its address.
proof fn lemma_at(list: Seq<DeviceView>, i: int)
    requires
        roster::by_address(list),
        0 <= i < list.len(),
    ensures
        device_at(list, list[i].ip) == Some(list[i]),
        roster::ip_place(list, list[i].ip) == i,
{
    let ip = list[i].ip;
    let k = choose|k: int| 0 <= k < list.len() && (#[trigger] list[k]).ip == ip;
    if k < i {
        assert(list[k].ip.less_spec(list[i].ip));
    }
    if i < k {
        assert(list[i].ip.less_spec(list[k].ip));
    }
    assert forall|j: int| 0 <= j < i implies (#[trigger] list[j]).ip != ip by {
        assert(list[j].ip.less_spec(list[i].ip));
    }
    roster::lemma_place_is(list, ip, i);
}

/// A device that is not at any position is nowhere.
proof fn lemma_absent(list: Seq<DeviceView>, ip: IpAddr)
    requires
        roster::by_address(list),
    ensures
        roster::ip_place(list, ip) >= list.len() <==> device_at(list, ip) is None,
        roster::ip_place(list, ip) < list.len() ==> device_at(list, ip) == Some(
            list[roster::ip_place(list, ip)],
        ),
{
    roster::lemma_ip_place(list, ip);
    let k = roster::ip_place(list, ip);
    if k < list.len() {
        lemma_at(list, k);
    } else if exists|i: int| 0 <= i < list.len() && (#[trigger] list[i]).ip == ip {
        let i = choose|i: int| 0 <= i < list.len() && (#[trigger] list[i]).ip == ip;
        assert(list[i].ip != ip);
    }
}

/// Putting a device at an address changes no other address.
proof fn lemma_put(
    list: Seq<DeviceView>,
    ip: IpAddr,
    now: Timestamp,
    interface: Seq<char>,
    d: DeviceView,
)
    requires
        roster::by_address(list),
        d.ip == ip,
    ensures
        ({
            let l = roster::with_device(list, ip, now, interface);
            let k = roster::ip_place(l, ip);
            let r = l.update(k, d);
            &&& 0 <= k < l.len()
            &&& l[k] == (match device_at(list, ip) {
                Some(held) => roster::on_interface(held, interface),
                None => roster::fresh_device(ip, now, interface),
            })
            &&& roster::by_address(r)
            &&& device_at(r, ip) == Some(d)
            &&& forall|other: IpAddr| other != ip ==> #[trigger] device_at(r, other) == device_at(
                list,
                other,
            )
        }),
{
    let l = roster::with_device(list, ip, now, interface);
    let k = roster::ip_place(l, ip);
    let r = l.update(k, d);
    roster::lemma_with_device(list, ip, now, interface);
    roster::lemma_update_by_address(l, k, d);
    lemma_absent(list, ip);
    lemma_absent(l, ip);
    lemma_at(r, k);
    let p = roster::ip_place(list, ip);
    roster::lemma_ip_place(list, ip);
    if p < list.len() {
        let x = roster::on_interface(list[p], interface);
        assert(l == list.update(p, x));
        assert(l[p].ip == ip);
        lemma_at(l, p);
        assert(k == p);
    } else {
        roster::lemma_insert_by_address(list, roster::fresh_device(ip, now, interface));
        assert(l == list.insert(k, roster::fresh_device(ip, now, interface)));
    }
    assert forall|other: IpAddr| other != ip implies #[trigger] device_at(r, other) == device_at(
        list,
        other,
    ) by {
        lemma_absent(list, other);
        lemma_absent(r, other);
        let a = roster::ip_place(list, other);
        let b = roster::ip_place(r, other);
        roster::lemma_ip_place(list, other);
        roster::lemma_ip_place(r, other);
        if a < list.len() {
            let at = if p < list.len() || a < k {
                a
            } else {
                a + 1
            };
            assert(r[at] == list[a]);
            lemma_at(r, at);
        } else if b < r.len() {
            let at = if p < list.len() || b < k {
                b
            } else {
                b - 1
            };
            assert(list[at] == r[b]);
            lemma_at(list, at);
        }
    }
}

/// What a source said of a host is in its device.
pub open spec fn holds(context: ScanContextView, d: DeviceView, update: HostUpdateView) -> bool {
    match update {
        HostUpdateView::Arp(mac) => d.mac == Some(mac) && (context.config.oui ==> d.vendor
            == oui::vendor_spec(context.oui_db, mac)),
        HostUpdateView::Local(name, mac) => told::named(d, name, "local"@) && (mac is Some
            ==> d.mac is Some),
        HostUpdateView::Lease(lease) => told::holds_lease(d, lease) && (lease.mac is Some
            ==> d.mac is Some),
        HostUpdateView::Mdns(info) => told::holds_mdns(d, info),
        HostUpdateView::Upnp(info) => told::holds_upnp(d, info),
        HostUpdateView::Rdns(name) => told::named(d, name, "rdns"@),
        HostUpdateView::Netbios(names) => told::named_each(d, names, "netbios"@) && d.os is Some,
        HostUpdateView::Probe(p) => phases::probe_options_spec(context.config).deep
            ==> told::holds_port(d, p),
        HostUpdateView::Snmp(info) => told::holds_snmp(d, info),
        HostUpdateView::Smb(info) => told::holds_smb(d, info),
        HostUpdateView::Advertised(o) => match o.advertisement {
            L2AdvertisementView::Lldp(info) => told::holds_lldp(d, info) && d.mac is Some,
            L2AdvertisementView::Cdp(info) => told::holds_cdp(d, info) && d.mac is Some,
        },
    }
}

/// What a source says stays in place, is held, and takes nothing away; the answer to an
/// ARP request alone may replace a MAC address and a vendor.
proof fn lemma_applied(context: ScanContextView, d: DeviceView, update: HostUpdateView)
    ensures
        ({
            let after = context.applied(d, update);
            &&& after.ip == d.ip && after.interface == d.interface && after.first_seen
                == d.first_seen
            &&& holds(context, after, update)
            &&& update is Arp || d.extended_by(after)
            &&& update is Arp ==> after == (DeviceView {
                mac: after.mac,
                vendor: after.vendor,
                ..d
            })
        }),
{
    broadcast use {crate::model::lemma_extended_refl, crate::model::lemma_extended_trans};

    reveal(ScanContextView::applied);
    let after = context.applied(d, update);
    match update {
        HostUpdateView::Arp(mac) => {},
        HostUpdateView::Local(name, mac) => {
            let x = apply::filled_mac(d, mac);
            assert(d.extended_by(x)) by {
                reveal(DeviceView::extended_by);
            }
            model::law_reports_erase_nothing(x, "local"@, seq![], name, None, 95);
            model::law_reports_are_held(x, "local"@, seq![], name, None, 95);
            reveal(DeviceView::add_name);
        },
        HostUpdateView::Lease(lease) => told::law_lease_is_told(d, lease, context.vendors()),
        HostUpdateView::Mdns(info) => told::law_mdns_is_told(d, info),
        HostUpdateView::Upnp(info) => told::law_upnp_is_told(d, info),
        HostUpdateView::Rdns(name) => {
            model::law_reports_erase_nothing(d, "rdns"@, seq![], name, None, 65);
            model::law_reports_are_held(d, "rdns"@, seq![], name, None, 65);
        },
        HostUpdateView::Netbios(names) => told::law_netbios_is_told(d, names),
        HostUpdateView::Probe(p) => {
            let options = phases::probe_options_spec(context.config);
            reveal_with_fuel(apply::each_probe, 2);
            assert(seq![p].drop_last() =~= seq![]);
            assert(after == apply::with_probe(d, p, options));
            let a = if options.deep {
                apply::with_port(d, p)
            } else {
                d
            };
            told::law_open_port_is_told(d, p);
            let b = if options.http {
                apply::with_http(a, p)
            } else {
                a
            };
            told::law_http_is_told(a, p);
            told::law_certificate_is_told(b, p);
            model::lemma_extension_knows(a, b);
            model::lemma_extension_knows(b, after);
        },
        HostUpdateView::Snmp(info) => told::law_snmp_is_told(d, info),
        HostUpdateView::Smb(info) => told::law_smb_is_told(d, info),
        HostUpdateView::Advertised(o) => {
            match o.advertisement {
                L2AdvertisementView::Lldp(info) => told::law_lldp_is_told(
                    d,
                    info,
                    context.vendors(),
                ),
                L2AdvertisementView::Cdp(info) => told::law_cdp_is_told(
                    d,
                    info,
                    context.vendors(),
                ),
            }
        },
    }
    reveal(DeviceView::extended_by);
}

/// What is held stays held where names, services and facts only grow.
proof fn lemma_still_held(
    context: ScanContextView,
    a: DeviceView,
    b: DeviceView,
    update: HostUpdateView,
)
    requires
        holds(context, a, update),
        a.extended_by(b),
        b.mac == a.mac,
        b.vendor == a.vendor,
    ensures
        holds(context, b, update),
{
    model::lemma_extension_knows(a, b);
    reveal(DeviceView::extended_by);
}

/// A device after what a source said of it just now.
proof fn lemma_observed(
    context: ScanContextView,
    d: DeviceView,
    update: HostUpdateView,
    now: Timestamp,
)
    ensures
        ({
            let after = context.observed(d, update, now);
            &&& after.ip == d.ip && after.interface == d.interface && after.first_seen
                == d.first_seen
            &&& after.last_seen == now
            &&& holds(context, after, update)
            &&& DeviceView {
                mac: if update is Arp {
                    None
                } else {
                    d.mac
                },
                vendor: if update is Arp {
                    None
                } else {
                    d.vendor
                },
                last_seen: now,
                ..d
            }.extended_by(after)
        }),
{
    broadcast use crate::model::lemma_extended_trans;

    let x = context.applied(d, update);
    let y = DeviceView { last_seen: now, ..x };
    let z = context.observed(d, update, now);
    lemma_applied(context, d, update);
    identity_rules::law_rules_erase_nothing(y, context.rules);
    assert(holds(context, y, update)) by {
        assert(told::knowing(x, y));
    }
    lemma_still_held(context, y, z, update);
    let base = DeviceView {
        mac: if update is Arp {
            None
        } else {
            d.mac
        },
        vendor: if update is Arp {
            None
        } else {
            d.vendor
        },
        last_seen: now,
        ..d
    };
    assert(base.extended_by(y)) by {
        reveal(DeviceView::extended_by);
    }
    reveal(DeviceView::extended_by);
}

/// The device that an update starts from: the one at the address, or a fresh one that
/// was first seen when the scan began, on the scanned interface.
pub open spec fn base(s: ScanSessionView, ip: IpAddr) -> DeviceView {
    match device_at(s.devices, ip) {
        Some(d) => DeviceView {
            interface: match d.interface {
                Some(name) => Some(name),
                None => Some(s.context.interface.name),
            },
            ..d
        },
        None => DeviceView {
            interface: Some(s.context.interface.name),
            ..DeviceView::new(ip, s.context.scanned_at)
        },
    }
}

/// `n` is the session after one source said something of one host just now: its device
/// holds that and everything from before, and no other device changed.
pub open spec fn took(
    s: ScanSessionView,
    n: ScanSessionView,
    ip: IpAddr,
    update: HostUpdateView,
    now: Timestamp,
) -> bool {
    &&& n.context == s.context
    &&& roster::by_address(n.devices)
    &&& device_at(n.devices, ip) matches Some(after) && ({
        let d = base(s, ip);
        &&& after.ip == ip && after.interface == d.interface && after.first_seen == d.first_seen
        &&& after.last_seen == now
        &&& holds(s.context, after, update)
        &&& DeviceView {
            mac: if update is Arp {
                None
            } else {
                d.mac
            },
            vendor: if update is Arp {
                None
            } else {
                d.vendor
            },
            last_seen: now,
            ..d
        }.extended_by(after)
    })
    &&& forall|other: IpAddr| other != ip ==> #[trigger] device_at(n.devices, other) == device_at(
        s.devices,
        other,
    )
}

/// One update.
proof fn lemma_took(
    s: ScanSessionView,
    events: Seq<ScanEventView>,
    ip: IpAddr,
    update: HostUpdateView,
    now: Timestamp,
)
    requires
        s.valid(),
    ensures
        ({
            let (n, e) = s.updated(events, ip, update, now);
            &&& took(s, n, ip, update, now)
            &&& n.valid()
            &&& n.stage == s.stage && n.warnings == s.warnings
            &&& device_at(n.devices, ip) matches Some(after) && e == events.push(
                ScanEventView::DeviceUpdated(after),
            )
        }),
{
    reveal(ScanSessionView::updated);
    let name = s.context.interface.name;
    let l = roster::with_device(s.devices, ip, s.context.scanned_at, name);
    let k = roster::ip_place(l, ip);
    roster::lemma_with_device(s.devices, ip, s.context.scanned_at, name);
    lemma_observed(s.context, l[k], update, now);
    let d = s.context.observed(l[k], update, now);
    lemma_put(s.devices, ip, s.context.scanned_at, name, d);
    if device_at(s.devices, ip) is Some {
        lemma_absent(s.devices, ip);
        roster::lemma_ip_place(s.devices, ip);
    }
}

/// What was learned of a host while hosts are asked is in its device afterwards, next to
/// everything from before; no other device changes, and the device is shown.
pub proof fn law_updates_are_taken(
    s: ScanSessionView,
    ip: IpAddr,
    update: HostUpdateView,
    now: Timestamp,
)
    requires
        s.valid(),
        s.stage == ScanStage::Multicast || s.stage == ScanStage::Naming || s.stage
            == ScanStage::Probing || s.stage == ScanStage::Smb,
        !(update is Mdns || update is Upnp) || (ip is V4 && s.context.target.contains_spec(ip->V4_0)),
    ensures
        ({
            let (n, events, action) = s.step(ScanInputView::Update(ip, update), now);
            &&& took(s, n, ip, update, now)
            &&& device_at(n.devices, ip) matches Some(after) && events == seq![
                ScanEventView::DeviceUpdated(after),
            ]
        }),
{
    reveal(ScanSessionView::on_update);
    lemma_took(s, Seq::empty(), ip, update, now);
    assert(Seq::<ScanEventView>::empty().push(
        s.updated(Seq::empty(), ip, update, now).1[0],
    ) =~= seq![s.updated(Seq::empty(), ip, update, now).1[0]]);
}

/// The hit is the last one for its address.
pub open spec fn last_for_its_host(hits: Seq<ArpHitView>, i: int) -> bool {
    0 <= i < hits.len() && forall|j: int| i < j < hits.len() ==> (#[trigger] hits[j]).ip
        != hits[i].ip
}

/// The session has a device at the address with the MAC address that the host answered
/// with, on the scanned interface unless it was on another one, and with the vendor of
/// that MAC address where vendors are wanted.
pub open spec fn answered(s: ScanSessionView, hit: ArpHitView) -> bool {
    device_at(s.devices, IpAddr::V4(hit.ip)) matches Some(d) && d.mac == Some(hit.mac)
        && d.interface is Some && (s.context.config.oui ==> d.vendor == oui::vendor_spec(
        s.context.oui_db,
        hit.mac,
    ))
}

/// The answer of one host.
proof fn lemma_hit(
    s: ScanSessionView,
    events: Seq<ScanEventView>,
    hit: ArpHitView,
    now: Timestamp,
)
    requires
        s.valid(),
    ensures
        ({
            let n = s.updated(events, IpAddr::V4(hit.ip), HostUpdateView::Arp(hit.mac), now).0;
            &&& n.valid() && n.context == s.context && n.stage == s.stage
            &&& answered(n, hit)
            &&& forall|other: IpAddr|
                other != IpAddr::V4(hit.ip) ==> #[trigger] device_at(n.devices, other)
                    == device_at(s.devices, other)
        }),
{
    lemma_took(s, events, IpAddr::V4(hit.ip), HostUpdateView::Arp(hit.mac), now);
    reveal(DeviceView::extended_by);
}

/// Answers of hosts.
proof fn lemma_hits(
    s: ScanSessionView,
    events: Seq<ScanEventView>,
    hits: Seq<ArpHitView>,
    now: Timestamp,
)
    requires
        s.valid(),
    ensures
        ({
            let n = s.with_hits(events, hits, now).0;
            &&& n.valid() && n.context == s.context && n.stage == s.stage
            &&& forall|i: int|
                last_for_its_host(hits, i) ==> answered(n, #[trigger] hits[i])
            &&& forall|ip: IpAddr|
                (forall|i: int| 0 <= i < hits.len() ==> IpAddr::V4((#[trigger] hits[i]).ip) != ip)
                    ==> #[trigger] device_at(n.devices, ip) == device_at(s.devices, ip)
        }),
    decreases hits.len(),
{
    if hits.len() > 0 {
        let front = hits.drop_last();
        let hit = hits.last();
        let (a, e) = s.with_hits(events, front, now);
        let n = s.with_hits(events, hits, now).0;
        lemma_hits(s, events, front, now);
        lemma_hit(a, e, hit, now);
        assert(hits[hits.len() - 1] == hit);
        assert forall|i: int| last_for_its_host(hits, i) implies answered(n, #[trigger] hits[i]) by {
            if i < front.len() {
                assert(hits[hits.len() - 1].ip != hits[i].ip);
                assert forall|j: int| i < j < front.len() implies (#[trigger] front[j]).ip
                    != front[i].ip by {
                    assert(hits[j].ip != hits[i].ip);
                }
                assert(last_for_its_host(front, i));
                assert(answered(a, front[i]));
            }
        }
        assert forall|ip: IpAddr|
            (forall|i: int| 0 <= i < hits.len() ==> IpAddr::V4((#[trigger] hits[i]).ip)
                != ip) implies #[trigger] device_at(n.devices, ip) == device_at(s.devices, ip) by {
            assert(IpAddr::V4(hits[hits.len() - 1].ip) != ip);
            assert forall|i: int| 0 <= i < front.len() implies IpAddr::V4((#[trigger] front[i]).ip)
                != ip by {
                assert(IpAddr::V4(hits[i].ip) != ip);
            }
            assert(device_at(a.devices, ip) == device_at(s.devices, ip));
        }
    }
}

/// This machine is added next to the hosts that answered.
proof fn lemma_self(s: ScanSessionView, events: Seq<ScanEventView>, now: Timestamp)
    requires
        s.valid(),
    ensures
        ({
            let n = s.with_self(events, now).0;
            &&& n.valid() && n.context == s.context && n.stage == s.stage
            &&& s.context.target.contains_spec(s.context.interface.ip) ==> took(
                s,
                n,
                IpAddr::V4(s.context.interface.ip),
                HostUpdateView::Local(
                    match s.context.local_name {
                        Some(name) => name,
                        None => s.context.interface.name,
                    },
                    s.context.interface.mac,
                ),
                now,
            )
            &&& !s.context.target.contains_spec(s.context.interface.ip) ==> n == s
        }),
{
    reveal(ScanSessionView::with_self);
    if s.context.target.contains_spec(s.context.interface.ip) {
        let name = match s.context.local_name {
            Some(name) => name,
            None => s.context.interface.name,
        };
        lemma_took(
            s,
            events,
            IpAddr::V4(s.context.interface.ip),
            HostUpdateView::Local(name, s.context.interface.mac),
            now,
        );
    }
}

/// A list whose devices keep their addresses one by one has a device at an address where
/// the other list has one.
proof fn lemma_one_by_one(a: Seq<DeviceView>, b: Seq<DeviceView>, ip: IpAddr)
    requires
        roster::by_address(a),
        a.len() == b.len(),
        forall|i: int| 0 <= i < a.len() ==> (#[trigger] b[i]).ip == a[i].ip,
    ensures
        roster::by_address(b),
        device_at(a, ip) is None <==> device_at(b, ip) is None,
        device_at(a, ip) is Some ==> ({
            let i = roster::ip_place(a, ip);
            0 <= i < a.len() && device_at(a, ip) == Some(a[i]) && device_at(b, ip) == Some(b[i])
        }),
{
    assert forall|i: int, j: int| 0 <= i < j < b.len() implies (#[trigger] b[i]).ip.less_spec(
        (#[trigger] b[j]).ip,
    ) by {
        assert(a[i].ip.less_spec(a[j].ip));
    }
    lemma_absent(a, ip);
    lemma_absent(b, ip);
    roster::lemma_ip_place(a, ip);
    roster::lemma_ip_place(b, ip);
    let i = roster::ip_place(a, ip);
    let j = roster::ip_place(b, ip);
    if i < a.len() {
        assert(b[i].ip == ip);
        lemma_at(b, i);
    } else if j < b.len() {
        assert(a[j].ip == ip);
        lemma_at(a, j);
    }
}

/// Looking up vendors and applying the rules keep addresses and MAC addresses.
proof fn lemma_settled(s: ScanSessionView, events: Seq<ScanEventView>, ip: IpAddr)
    requires
        s.valid(),
    ensures
        ({
            let n = s.vendored().snapshot(events).0;
            &&& n.valid() && n.context == s.context && n.stage == s.stage
            &&& device_at(s.devices, ip) is None <==> device_at(n.devices, ip) is None
            &&& device_at(s.devices, ip) matches Some(d) ==> device_at(n.devices, ip) matches Some(
                r,
            ) && r.mac == d.mac && r.interface == d.interface && r.first_seen == d.first_seen
                && r.last_seen == d.last_seen && r.names == d.names && r.vendor == (if s.context.config.oui
                && d.mac is Some {
                oui::vendor_spec(s.context.oui_db, d.mac->0)
            } else {
                d.vendor
            })
        }),
{
    reveal(ScanSessionView::vendored);
    reveal(ScanSessionView::snapshot);
    let v = s.vendored();
    let n = v.snapshot(events).0;
    assert forall|i: int| 0 <= i < v.devices.len() implies (#[trigger] n.devices[i]).ip
        == s.devices[i].ip && n.devices[i].mac == s.devices[i].mac && n.devices[i].interface
        == s.devices[i].interface && n.devices[i].first_seen == s.devices[i].first_seen
        && n.devices[i].last_seen == s.devices[i].last_seen && n.devices[i].names
        == s.devices[i].names && n.devices[i].vendor == v.devices[i].vendor by {
        identity_rules::law_rules_erase_nothing(v.devices[i], s.context.rules);
        reveal(DeviceView::extended_by);
    }
    lemma_one_by_one(s.devices, n.devices, ip);
}

/// After the sweep, or after the neighbor table where the sweep failed, every host that
/// answered has a device at its address with the MAC address that it answered with last,
/// and with the vendor of that MAC address where vendors are wanted.
pub proof fn law_answers_give_mac_addresses(
    s: ScanSessionView,
    input: ScanInputView,
    hits: Seq<ArpHitView>,
    i: int,
    now: Timestamp,
)
    requires
        s.valid(),
        (s.stage == ScanStage::Sweeping && input == ScanInputView::Swept(Ok(hits))) || (s.stage
            == ScanStage::ReadingTable && input == ScanInputView::Table(hits)),
        last_for_its_host(hits, i),
    ensures
        ({
            let n = s.step(input, now).0;
            exists|k: int|
                #![trigger n.devices[k]]
                0 <= k < n.devices.len() && n.devices[k].ip == IpAddr::V4(hits[i].ip)
                    && n.devices[k].mac == Some(hits[i].mac) && n.devices[k].interface is Some && (
                s.context.config.oui ==> n.devices[k].vendor == oui::vendor_spec(
                    s.context.oui_db,
                    hits[i].mac,
                ))
        }),
{
    reveal(ScanSessionView::on_swept);
    reveal(ScanSessionView::on_table);
    reveal(ScanSessionView::after_discovery);
    reveal(ScanSessionView::to_leases);
    reveal(ScanSessionView::to_multicast);
    let (a, e) = s.with_hits(Seq::empty(), hits, now);
    lemma_hits(s, Seq::empty(), hits, now);
    assert(answered(a, hits[i]));
    let (b, f) = a.with_self(e, now);
    lemma_self(a, e, now);
    let ip = IpAddr::V4(hits[i].ip);
    if ip == IpAddr::V4(s.context.interface.ip) {
        reveal(DeviceView::extended_by);
    }
    assert(device_at(b.devices, ip) matches Some(d) && d.mac == Some(hits[i].mac) && d.interface
        is Some);
    lemma_settled(b, f, ip);
    let c = b.vendored().snapshot(f).0;
    let n = s.step(input, now).0;
    assert(n.devices == c.devices);
    let k = choose|k: int| 0 <= k < n.devices.len() && (#[trigger] n.devices[k]).ip == ip;
    lemma_at(n.devices, k);
    assert(n.devices[k].mac == Some(hits[i].mac));
}

/// Discovery finds the hosts that answered, this machine where it lies in the target
/// network, and no other; whatever was known before stays.
pub proof fn law_discovery_finds_those_who_answered(
    s: ScanSessionView,
    input: ScanInputView,
    hits: Seq<ArpHitView>,
    ip: IpAddr,
    now: Timestamp,
)
    requires
        s.valid(),
        (s.stage == ScanStage::Sweeping && input == ScanInputView::Swept(Ok(hits))) || (s.stage
            == ScanStage::ReadingTable && input == ScanInputView::Table(hits)),
    ensures
        ({
            let n = s.step(input, now).0;
            device_at(n.devices, ip) is Some <==> device_at(s.devices, ip) is Some || (exists|
                i: int,
            |
                0 <= i < hits.len() && IpAddr::V4((#[trigger] hits[i]).ip) == ip) || (ip
                == IpAddr::V4(s.context.interface.ip) && s.context.target.contains_spec(
                s.context.interface.ip,
            ))
        }),
{
    reveal(ScanSessionView::on_swept);
    reveal(ScanSessionView::on_table);
    reveal(ScanSessionView::after_discovery);
    reveal(ScanSessionView::to_leases);
    reveal(ScanSessionView::to_multicast);
    let (a, e) = s.with_hits(Seq::empty(), hits, now);
    lemma_hits(s, Seq::empty(), hits, now);
    let (b, f) = a.with_self(e, now);
    lemma_self(a, e, now);
    lemma_settled(b, f, ip);
    if exists|i: int| 0 <= i < hits.len() && IpAddr::V4((#[trigger] hits[i]).ip) == ip {
        let i = choose|i: int| 0 <= i < hits.len() && IpAddr::V4((#[trigger] hits[i]).ip) == ip;
        let last = lemma_last_hit(hits, i);
        assert(answered(a, hits[last]));
    }
}

/// Of the hits for an address one is the last.
proof fn lemma_last_hit(hits: Seq<ArpHitView>, i: int) -> (last: int)
    requires
        0 <= i < hits.len(),
    ensures
        last_for_its_host(hits, last),
        hits[last].ip == hits[i].ip,
    decreases hits.len() - i,
{
    if last_for_its_host(hits, i) {
        i
    } else {
        let j = choose|j: int| i < j < hits.len() && (#[trigger] hits[j]).ip == hits[i].ip;
        lemma_last_hit(hits, j)
    }
}

/// This machine is among the devices after discovery where its address lies in the
/// target network: under its own name, or that of the interface where it has none.
pub proof fn law_this_machine_is_found(
    s: ScanSessionView,
    input: ScanInputView,
    hits: Seq<ArpHitView>,
    now: Timestamp,
)
    requires
        s.valid(),
        (s.stage == ScanStage::Sweeping && input == ScanInputView::Swept(Ok(hits))) || (s.stage
            == ScanStage::ReadingTable && input == ScanInputView::Table(hits)),
        s.context.target.contains_spec(s.context.interface.ip),
    ensures
        ({
            let n = s.step(input, now).0;
            device_at(n.devices, IpAddr::V4(s.context.interface.ip)) matches Some(d)
                && told::named(
                d,
                match s.context.local_name {
                    Some(name) => name,
                    None => s.context.interface.name,
                },
                "local"@,
            ) && (s.context.interface.mac is Some ==> d.mac is Some) && d.last_seen == now
        }),
{
    reveal(ScanSessionView::on_swept);
    reveal(ScanSessionView::on_table);
    reveal(ScanSessionView::after_discovery);
    reveal(ScanSessionView::to_leases);
    reveal(ScanSessionView::to_multicast);
    let (a, e) = s.with_hits(Seq::empty(), hits, now);
    lemma_hits(s, Seq::empty(), hits, now);
    let (b, f) = a.with_self(e, now);
    lemma_self(a, e, now);
    lemma_settled(b, f, IpAddr::V4(s.context.interface.ip));
}

/// The lease is the last one for its address.
pub open spec fn last_lease(leases: Seq<DhcpLeaseView>, i: int) -> bool {
    0 <= i < leases.len() && forall|j: int| i < j < leases.len() ==> (#[trigger] leases[j]).ip
        != leases[i].ip
}

/// What a lease says is in the device at its address.
pub open spec fn leased(list: Seq<DeviceView>, lease: DhcpLeaseView) -> bool {
    device_at(list, lease.ip) matches Some(d) && told::holds_lease(d, lease) && (lease.mac is Some
        ==> d.mac is Some)
}

/// One lease.
proof fn lemma_lease(
    s: ScanSessionView,
    events: Seq<ScanEventView>,
    lease: DhcpLeaseView,
    now: Timestamp,
)
    requires
        s.valid(),
    ensures
        ({
            let n = s.updated(events, lease.ip, HostUpdateView::Lease(lease), now).0;
            &&& n.valid() && n.context == s.context && n.stage == s.stage
            &&& leased(n.devices, lease)
            &&& forall|other: IpAddr|
                other != lease.ip ==> #[trigger] device_at(n.devices, other) == device_at(
                    s.devices,
                    other,
                )
        }),
{
    lemma_took(s, events, lease.ip, HostUpdateView::Lease(lease), now);
}

/// Leases.
proof fn lemma_leases(
    s: ScanSessionView,
    events: Seq<ScanEventView>,
    leases: Seq<DhcpLeaseView>,
    now: Timestamp,
)
    requires
        s.valid(),
    ensures
        ({
            let n = s.with_leases(events, leases, now).0;
            &&& n.valid() && n.context == s.context
            &&& forall|i: int|
                last_lease(leases, i) && phases::in_target(s.context.target, leases[i].ip)
                    ==> leased(n.devices, #[trigger] leases[i])
            &&& forall|ip: IpAddr|
                (!phases::in_target(s.context.target, ip) || forall|i: int|
                    0 <= i < leases.len() ==> (#[trigger] leases[i]).ip != ip)
                    ==> #[trigger] device_at(n.devices, ip) == device_at(s.devices, ip)
        }),
    decreases leases.len(),
{
    if leases.len() > 0 {
        let front = leases.drop_last();
        let lease = leases.last();
        let (a, e) = s.with_leases(events, front, now);
        let n = s.with_leases(events, leases, now).0;
        lemma_leases(s, events, front, now);
        lemma_lease(a, e, lease, now);
        assert(leases[leases.len() - 1] == lease);
        assert forall|i: int|
            last_lease(leases, i) && phases::in_target(
                s.context.target,
                leases[i].ip,
            ) implies leased(n.devices, #[trigger] leases[i]) by {
            if i < front.len() {
                assert(leases[leases.len() - 1].ip != leases[i].ip);
                assert forall|j: int| i < j < front.len() implies (#[trigger] front[j]).ip
                    != front[i].ip by {
                    assert(leases[j].ip != leases[i].ip);
                }
                assert(last_lease(front, i));
                assert(leased(a.devices, front[i]));
            }
        }
        assert forall|ip: IpAddr|
            (!phases::in_target(s.context.target, ip) || forall|i: int|
                0 <= i < leases.len() ==> (#[trigger] leases[i]).ip
                    != ip) implies #[trigger] device_at(n.devices, ip) == device_at(
            s.devices,
            ip,
        ) by {
            if phases::in_target(s.context.target, ip) {
                assert(leases[leases.len() - 1].ip != ip);
                assert forall|i: int| 0 <= i < front.len() implies (#[trigger] front[i]).ip
                    != ip by {
                    assert(leases[i].ip != ip);
                }
            }
            assert(device_at(a.devices, ip) == device_at(s.devices, ip));
        }
    }
}

/// Once leases were read, what the last lease for an address in the target network says
/// is in the device there. Leases for other addresses change nothing.
pub proof fn law_leases_are_taken(
    s: ScanSessionView,
    leases: Seq<DhcpLeaseView>,
    warnings: Seq<Seq<char>>,
    now: Timestamp,
)
    requires
        s.valid(),
        s.stage == ScanStage::ReadingLeases,
    ensures
        ({
            let n = s.step(ScanInputView::Leases(leases, warnings), now).0;
            &&& forall|i: int|
                last_lease(leases, i) && (leases[i].ip is V4 && s.context.target.contains_spec(
                    leases[i].ip->V4_0,
                )) ==> leased(n.devices, #[trigger] leases[i])
            &&& forall|ip: IpAddr|
                (!(ip is V4 && s.context.target.contains_spec(ip->V4_0)) || forall|i: int|
                    0 <= i < leases.len() ==> (#[trigger] leases[i]).ip != ip)
                    ==> #[trigger] device_at(n.devices, ip) == device_at(s.devices, ip)
        }),
{
    reveal(ScanSessionView::on_leases);
    reveal(ScanSessionView::to_multicast);
    let (a, e) = s.with_warnings(Seq::empty(), warnings);
    lemma_warnings(s, Seq::empty(), warnings);
    lemma_leases(a, e, leases, now);
    let n = s.step(ScanInputView::Leases(leases, warnings), now).0;
    assert(n.devices == a.with_leases(e, leases, now).0.devices);
    assert forall|i: int|
        last_lease(leases, i) && (leases[i].ip is V4 && s.context.target.contains_spec(
            leases[i].ip->V4_0,
        )) implies leased(n.devices, #[trigger] leases[i]) by {
        assert(phases::in_target(s.context.target, leases[i].ip));
    }
    assert forall|ip: IpAddr|
        (!(ip is V4 && s.context.target.contains_spec(ip->V4_0)) || forall|i: int|
            0 <= i < leases.len() ==> (#[trigger] leases[i]).ip
                != ip) implies #[trigger] device_at(n.devices, ip) == device_at(s.devices, ip) by {
        if !(ip is V4 && s.context.target.contains_spec(ip->V4_0)) {
            assert(!phases::in_target(s.context.target, ip));
        }
    }
}

/// Warnings change no device.
proof fn lemma_warnings(s: ScanSessionView, events: Seq<ScanEventView>, warnings: Seq<Seq<char>>)
    ensures
        ({
            let n = s.with_warnings(events, warnings).0;
            n.devices == s.devices && n.context == s.context && n.warnings == s.warnings + warnings
        }),
    decreases warnings.len(),
{
    reveal(ScanSessionView::warned);
    if warnings.len() > 0 {
        lemma_warnings(s, events, warnings.drop_last());
        assert(s.warnings + warnings =~= (s.warnings + warnings.drop_last()).push(warnings.last()));
    } else {
        assert(s.warnings + warnings =~= s.warnings);
    }
}

/// Every phase asks for what the configuration wants and of the hosts that are known,
/// and the phases come one after the other: leases, multicast, names, probes, SMB where
/// some host shows its port, the passive listener, the cache.
pub proof fn law_phases_ask_for_what_is_wanted(
    s: ScanSessionView,
    input: ScanInputView,
    now: Timestamp,
)
    ensures
        ({
            let (n, events, action) = s.step(input, now);
            let config = s.context.config;
            &&& action matches ScanActionView::ReadLeases(paths) ==> config.dhcp && paths
                == config.dhcp_paths && n.stage == ScanStage::ReadingLeases
            &&& action matches ScanActionView::Multicast { mdns, upnp } ==> mdns == config.mdns
                && upnp == config.upnp && n.stage == ScanStage::Multicast
            &&& action matches ScanActionView::Names { ips, rdns, netbios } ==> rdns == config.rdns
                && netbios == config.netbios && n.stage == ScanStage::Naming && ips
                == n.devices.map_values(|d: DeviceView| d.ip)
            &&& action matches ScanActionView::Probes { ips, ports, snmp } ==> snmp == config.snmp
                && ports == phases::probes_ports(config) && n.stage == ScanStage::Probing && ips
                == n.devices.map_values(|d: DeviceView| d.ip)
            &&& action matches ScanActionView::Smb(ips) ==> config.smb && n.stage == ScanStage::Smb
            &&& action is CloseL2 ==> (config.lldp || config.cdp) && n.stage
                == ScanStage::ClosingL2
            &&& action is LoadCache ==> config.cache_enabled && n.stage == ScanStage::LoadingCache
            &&& input is MulticastDone && s.stage == ScanStage::Multicast ==> action is Names
            &&& input is NamesDone && s.stage == ScanStage::Naming ==> action is Probes
            &&& input is ProbesDone && s.stage == ScanStage::Probing && config.smb && (exists|
                i: int,
            |
                0 <= i < s.devices.len() && session::shows_smb(#[trigger] s.devices[i]))
                ==> action is Smb
        }),
{
    reveal(ScanSessionView::on_swept);
    reveal(ScanSessionView::on_table);
    reveal(ScanSessionView::on_leases);
    reveal(ScanSessionView::on_update);
    reveal(ScanSessionView::on_advertised);
    reveal(ScanSessionView::on_multicast_done);
    reveal(ScanSessionView::on_l2_closed);
    reveal(ScanSessionView::on_cache_loaded);
    reveal(ScanSessionView::on_cache_saved);
    reveal(ScanSessionView::after_discovery);
    reveal(ScanSessionView::to_leases);
    reveal(ScanSessionView::to_multicast);
    reveal(ScanSessionView::to_names);
    reveal(ScanSessionView::to_probes);
    reveal(ScanSessionView::to_smb);
    reveal(ScanSessionView::to_close);
    reveal(ScanSessionView::to_cache);
    reveal(ScanSessionView::to_done);
    session::law_scan_goes_forward(s, input, now);
    let shown = s.devices.filter(session::smb_shown());
    if exists|i: int| 0 <= i < s.devices.len() && session::shows_smb(#[trigger] s.devices[i]) {
        let i = choose|i: int|
            0 <= i < s.devices.len() && session::shows_smb(#[trigger] s.devices[i]);
        s.devices.lemma_filter_contains(session::smb_shown(), i);
        assert(shown.contains(s.devices[i]));
    }
}

/// SMB is asked of exactly the hosts that show a service on its port.
pub proof fn law_smb_is_asked_where_its_port_is_open(
    s: ScanSessionView,
    input: ScanInputView,
    now: Timestamp,
    ip: IpAddr,
)
    requires
        s.stage == ScanStage::Probing,
        input is ProbesDone,
    ensures
        s.step(input, now).2 matches ScanActionView::Smb(ips) ==> (ips.contains(ip) <==> exists|
            i: int,
            k: int,
        |
            #![trigger s.devices[i].services[k]]
            0 <= i < s.devices.len() && s.devices[i].ip == ip && 0 <= k
                < s.devices[i].services.len() && s.devices[i].services[k].port == Some(445u16)),
{
    broadcast use {Seq::lemma_filter_contains, Seq::lemma_filter_pred};

    reveal(ScanSessionView::to_smb);
    reveal(ScanSessionView::to_close);
    reveal(ScanSessionView::to_cache);
    reveal(ScanSessionView::to_done);
    let shown = s.devices.filter(session::smb_shown());
    let ips = s.smb_hosts();
    if ips.contains(ip) {
        let j = choose|j: int| 0 <= j < ips.len() && ips[j] == ip;
        let d = shown[j];
        assert(shown.contains(d));
        s.devices.lemma_filter_contains_rev(session::smb_shown(), d);
        assert((session::smb_shown())(shown[j]));
        assert(session::shows_smb(d));
        assert(s.devices.contains(d));
        let i = choose|i: int| 0 <= i < s.devices.len() && s.devices[i] == d;
        let k = choose|k: int|
            0 <= k < d.services.len() && (#[trigger] d.services[k]).port == Some(445u16);
        assert(s.devices[i].services[k].port == Some(445u16));
    }
    if exists|i: int, k: int|
        #![trigger s.devices[i].services[k]]
        0 <= i < s.devices.len() && s.devices[i].ip == ip && 0 <= k < s.devices[i].services.len()
            && s.devices[i].services[k].port == Some(445u16) {
        let (i, k) = choose|i: int, k: int|
            #![trigger s.devices[i].services[k]]
            0 <= i < s.devices.len() && s.devices[i].ip == ip && 0 <= k
                < s.devices[i].services.len() && s.devices[i].services[k].port == Some(445u16);
        assert(session::shows_smb(s.devices[i]));
        assert(shown.contains(s.devices[i]));
        let j = choose|j: int| 0 <= j < shown.len() && shown[j] == s.devices[i];
        assert(ips[j] == ip);
    }
}

} // verus!
