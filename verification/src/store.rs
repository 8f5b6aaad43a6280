//! Last-scan cache.
//!
//! The cache is not a source of truth for current reachability. It carries stable
//! identity fields forward only when a newly observed device can be matched by MAC
//! address. Interface/IP matches preserve first-seen continuity, but do not copy
//! names or guesses because DHCP address reuse is common.

pub mod recalled;

use crate::model::{Device, DeviceView, NameEvidence, NameEvidenceView};
use crate::same::Same;
use crate::scanner::apply;
use crate::text::{chars, concat, concat4, hex_digits, same, text};
use crate::text;
use vstd::prelude::*;

verus! {

/// The hexadecimal digits of a MAC address, whatever separates them.
pub open spec fn mac_digits(mac: Seq<char>) -> Seq<char> {
    text::hex_digits_spec(mac)
}

/// The key under which a device is recognized by its MAC address, where it has a
/// whole one.
pub open spec fn mac_key_spec(d: DeviceView) -> Option<Seq<char>> {
    match d.mac {
        Some(mac) => if mac_digits(mac).len() == 12 {
            Some("mac:"@ + mac_digits(mac))
        } else {
            None
        },
        None => None,
    }
}

/// The key under which a device is recognized by where it is. The interface is part
/// of it because overlapping private ranges are common across VLANs, VPNs, and guest
/// networks.
pub open spec fn place_key_spec(d: DeviceView) -> Seq<char> {
    match d.interface {
        Some(interface) => "iface-ip:"@ + interface + ":"@ + d.ip.text_spec(),
        None => "ip:"@ + d.ip.text_spec(),
    }
}

/// Both MAC addresses are known and differ.
pub open spec fn mac_conflict(a: DeviceView, b: DeviceView) -> bool {
    match (a.mac, b.mac) {
        (Some(x), Some(y)) => mac_digits(x) != mac_digits(y),
        _ => false,
    }
}

/// The last device with a MAC key.
pub open spec fn last_with_mac(all: Seq<DeviceView>, key: Option<Seq<char>>) -> Option<DeviceView>
    decreases all.len(),
{
    if key is None || all.len() == 0 {
        None
    } else if mac_key_spec(all.last()) == key {
        Some(all.last())
    } else {
        last_with_mac(all.drop_last(), key)
    }
}

/// The last device at a place.
pub open spec fn last_at_place(all: Seq<DeviceView>, key: Seq<char>) -> Option<DeviceView>
    decreases all.len(),
{
    if all.len() == 0 {
        None
    } else if place_key_spec(all.last()) == key {
        Some(all.last())
    } else {
        last_at_place(all.drop_last(), key)
    }
}

/// The device after the cached names.
pub open spec fn cached_names(d: DeviceView, names: Seq<NameEvidenceView>) -> DeviceView
    decreases names.len(),
{
    if names.len() == 0 {
        d
    } else {
        cached_names(d, names.drop_last()).add_name(
            names.last().name,
            "cache"@,
            names.last().confidence,
        )
    }
}

/// The device with the cached vendor, marked as cached, unless it shows one.
pub open spec fn with_cached_vendor(d: DeviceView, previous: DeviceView) -> DeviceView {
    match (d.vendor, previous.vendor) {
        (None, Some(vendor)) => DeviceView { vendor: Some(vendor), ..d }.add_evidence(
            "cache"@,
            "vendor"@,
            vendor,
            55,
        ),
        _ => d,
    }
}

/// The device with the cached names, marked as cached, unless it shows one.
pub open spec fn with_cached_label(d: DeviceView, previous: DeviceView) -> DeviceView {
    if d.hostname is None {
        let d = cached_names(d, previous.names);
        match (d.hostname, previous.hostname) {
            (None, Some(hostname)) => d.add_name(hostname, "cache"@, 60),
            _ => d,
        }
    } else {
        d
    }
}

/// The device with the cached guesses, marked as cached, where it has none.
pub open spec fn with_cached_guesses(d: DeviceView, previous: DeviceView) -> DeviceView {
    let d = match (d.make, previous.make) {
        (None, Some(g)) => d.set_make(g.value, "cache"@, g.confidence),
        _ => d,
    };
    let d = match (d.model, previous.model) {
        (None, Some(g)) => d.set_model(g.value, "cache"@, g.confidence),
        _ => d,
    };
    let d = match (d.os, previous.os) {
        (None, Some(g)) => d.set_os(g.value, "cache"@, g.confidence),
        _ => d,
    };
    match (d.device_type, previous.device_type) {
        (None, Some(g)) => d.set_device_type(g.value, "cache"@, g.confidence),
        _ => d,
    }
}

/// The device with what the cache knows of it: the first sighting, and those parts of
/// the identity that it has not shown this time.
#[verifier::opaque]
pub open spec fn with_cached_identity(d: DeviceView, previous: DeviceView) -> DeviceView {
    let d = DeviceView { first_seen: previous.first_seen, ..d };
    with_cached_guesses(with_cached_label(with_cached_vendor(d, previous), previous), previous)
}

/// The device with what an earlier scan knows of it.
pub open spec fn with_previous(d: DeviceView, previous: Seq<DeviceView>) -> DeviceView {
    match last_with_mac(previous, mac_key_spec(d)) {
        Some(p) => with_cached_identity(d, p),
        None => match last_at_place(previous, place_key_spec(d)) {
            Some(p) => if mac_conflict(d, p) {
                d
            } else {
                DeviceView { first_seen: p.first_seen, ..d }
            },
            None => d,
        },
    }
}

/// The key under which a device is recognized by its MAC address.
fn mac_identity_key(device: &Device) -> (r: Option<String>)
    ensures
        r.deep_view() == mac_key_spec(device@),
{
    match &device.mac {
        Some(mac) => {
            let digits = hex_digits(chars(mac.as_str()).as_slice());
            if digits.len() == 12 {
                Some(concat("mac:", text(digits.as_slice()).as_str()))
            } else {
                None
            }
        },
        None => None,
    }
}

/// The key under which a device is recognized by where it is.
fn reachability_key(device: &Device) -> (r: String)
    ensures
        r@ == place_key_spec(device@),
{
    let ip = device.ip.text();
    match &device.interface {
        Some(interface) => concat4("iface-ip:", interface.as_str(), ":", ip.as_str()),
        None => concat("ip:", ip.as_str()),
    }
}

/// Reports whether both MAC addresses are known and differ.
pub fn known_mac_conflict(a: &Device, b: &Device) -> (r: bool)
    ensures
        r == mac_conflict(a@, b@),
{
    match (&a.mac, &b.mac) {
        (Some(x), Some(y)) => !same(
            hex_digits(chars(x.as_str()).as_slice()).as_slice(),
            hex_digits(chars(y.as_str()).as_slice()).as_slice(),
        ),
        _ => false,
    }
}

/// Finds the last device with a MAC key.
fn find_mac(all: &Vec<Device>, key: &Option<String>) -> (r: Option<usize>)
    ensures
        match r {
            Some(k) => k < all@.len() && last_with_mac(all.deep_view(), key.deep_view()) == Some(
                all@[k as int]@,
            ),
            None => last_with_mac(all.deep_view(), key.deep_view()) is None,
        },
{
    if key.is_none() {
        return None;
    }
    let ghost views = all.deep_view();
    let mut i: usize = all.len();
    proof {
        assert(views.take(i as int) =~= views);
    }
    while i > 0
        invariant
            i <= all@.len(),
            key is Some,
            views == all.deep_view(),
            last_with_mac(views, key.deep_view()) == last_with_mac(
                views.take(i as int),
                key.deep_view(),
            ),
        decreases i,
    {
        proof {
            assert(views.take(i as int).drop_last() =~= views.take(i - 1));
            assert(views.take(i as int).last() == all@[i - 1]@);
        }
        i = i - 1;
        if mac_identity_key(&all[i]).same(key) {
            return Some(i);
        }
    }
    None
}

/// Finds the last device at a place.
fn find_place(all: &Vec<Device>, key: &String) -> (r: Option<usize>)
    ensures
        match r {
            Some(k) => k < all@.len() && last_at_place(all.deep_view(), key@) == Some(
                all@[k as int]@,
            ),
            None => last_at_place(all.deep_view(), key@) is None,
        },
{
    let ghost views = all.deep_view();
    let mut i: usize = all.len();
    proof {
        assert(views.take(i as int) =~= views);
    }
    while i > 0
        invariant
            i <= all@.len(),
            views == all.deep_view(),
            last_at_place(views, key@) == last_at_place(views.take(i as int), key@),
        decreases i,
    {
        proof {
            assert(views.take(i as int).drop_last() =~= views.take(i - 1));
            assert(views.take(i as int).last() == all@[i - 1]@);
        }
        i = i - 1;
        if reachability_key(&all[i]).same(key) {
            return Some(i);
        }
    }
    None
}

/// Adds the cached names.
fn copy_names(device: &mut Device, names: &Vec<NameEvidence>)
    ensures
        final(device)@ == cached_names(old(device)@, names.deep_view()),
        old(device)@.extended_by(final(device)@),
{
    broadcast use crate::model::lemma_extended_refl;

    let ghost views = names.deep_view();
    let mut i: usize = 0;
    while i < names.len()
        invariant
            i <= names@.len(),
            views == names.deep_view(),
            device@ == cached_names(old(device)@, views.take(i as int)),
            old(device)@.extended_by(device@),
        decreases names@.len() - i,
    {
        broadcast use crate::model::lemma_extended_trans;

        proof {
            assert(views.take(i + 1).drop_last() =~= views.take(i as int));
            assert(views.take(i + 1).last() == names@[i as int]@);
        }
        device.add_name(names[i].name.as_str(), "cache", names[i].confidence);
        i = i + 1;
    }
    proof {
        assert(views.take(i as int) =~= views);
    }
}

/// Takes the cached vendor.
fn copy_cached_vendor(device: &mut Device, previous: &Device)
    ensures
        final(device)@ == with_cached_vendor(old(device)@, previous@),
        old(device)@.extended_by(final(device)@),
{
    broadcast use {crate::model::lemma_extended_refl, crate::model::lemma_extended_trans};

    if device.vendor.is_none() {
        match &previous.vendor {
            Some(vendor) => {
                device.vendor = Some(vendor.clone());
                proof {
                    assert(old(device)@.extended_by(device@)) by {
                        reveal(DeviceView::extended_by);
                    }
                }
                device.add_evidence("cache", "vendor", vendor.as_str(), 55);
            },
            None => {},
        }
    }
}

/// Takes the cached names.
fn copy_cached_names(device: &mut Device, previous: &Device)
    ensures
        final(device)@ == with_cached_label(old(device)@, previous@),
        old(device)@.extended_by(final(device)@),
{
    broadcast use {crate::model::lemma_extended_refl, crate::model::lemma_extended_trans};

    if device.hostname.is_none() {
        copy_names(device, &previous.names);
        if device.hostname.is_none() {
            match &previous.hostname {
                Some(hostname) => device.add_name(hostname.as_str(), "cache", 60),
                None => {},
            }
        }
    }
}

/// Takes the cached guesses.
fn copy_cached_guesses(device: &mut Device, previous: &Device)
    ensures
        final(device)@ == with_cached_guesses(old(device)@, previous@),
        old(device)@.extended_by(final(device)@),
{
    broadcast use {crate::model::lemma_extended_refl, crate::model::lemma_extended_trans};

    if device.make.is_none() {
        match &previous.make {
            Some(g) => device.set_make_guess(g.value.as_str(), "cache", g.confidence),
            None => {},
        }
    }
    if device.model.is_none() {
        match &previous.model {
            Some(g) => device.set_model_guess(g.value.as_str(), "cache", g.confidence),
            None => {},
        }
    }
    if device.os.is_none() {
        match &previous.os {
            Some(g) => device.set_os_guess(g.value.as_str(), "cache", g.confidence),
            None => {},
        }
    }
    if device.device_type.is_none() {
        match &previous.device_type {
            Some(g) => device.set_device_type_guess(g.value.as_str(), "cache", g.confidence),
            None => {},
        }
    }
}

/// Carries the cached identity of a device forward.
fn copy_cached_identity(device: &mut Device, previous: &Device)
    ensures
        final(device)@ == with_cached_identity(old(device)@, previous@),
        apply::keeps_all(old(device)@, final(device)@),
{
    broadcast use crate::model::lemma_extended_trans;

    proof {
        reveal(with_cached_identity);
    }
    device.first_seen = previous.first_seen;
    let ghost start = device@;
    copy_cached_vendor(device, previous);
    copy_cached_names(device, previous);
    copy_cached_guesses(device, previous);
    proof {
        assert(start.extended_by(device@));
        reveal(DeviceView::extended_by);
    }
}

/// Takes what an earlier scan knows of one device.
fn merge_previous_device(device: &mut Device, previous: &Vec<Device>)
    ensures
        final(device)@ == with_previous(old(device)@, previous.deep_view()),
        apply::keeps_all(old(device)@, final(device)@),
{
    broadcast use crate::model::lemma_extended_refl;

    let key = mac_identity_key(device);
    match find_mac(previous, &key) {
        Some(k) => copy_cached_identity(device, &previous[k]),
        None => {
            let place = reachability_key(device);
            match find_place(previous, &place) {
                Some(k) => {
                    if !known_mac_conflict(device, &previous[k]) {
                        device.first_seen = previous[k].first_seen;
                        proof {
                            assert(old(device)@ == (DeviceView {
                                first_seen: old(device)@.first_seen,
                                ..device@
                            }));
                        }
                    }
                },
                None => {},
            }
        },
    }
}

/// Carries what an earlier scan knows into the devices of this one.
///
/// A MAC match is stable enough to carry identity forward. An interface/IP match only
/// keeps first-seen continuity so DHCP address reuse cannot relabel a newly observed
/// host with stale names or guesses.
pub fn merge_previous_scan(current: &mut Vec<Device>, previous: &Vec<Device>)
    ensures
        final(current).deep_view() == merged_scan(old(current).deep_view(), previous.deep_view()),
{
    let ghost views = current.deep_view();
    let ghost old_views = previous.deep_view();
    let ghost want = merged_scan(views, old_views);
    let mut i: usize = 0;
    while i < current.len()
        invariant
            i <= current@.len(),
            views.len() == current@.len(),
            old_views == previous.deep_view(),
            want == merged_scan(views, old_views),
            forall|k: int|
                0 <= k < current@.len() ==> (#[trigger] current@[k])@ == (if k < i {
                    want[k]
                } else {
                    views[k]
                }),
        decreases current@.len() - i,
    {
        let mut device = current[i].clone();
        merge_previous_device(&mut device, previous);
        proof {
            assert(device@ == want[i as int]);
        }
        current.set(i, device);
        i = i + 1;
    }
    proof {
        assert(current.deep_view() =~= want);
    }
}

/// The devices of a scan with what an earlier scan knows of them.
pub open spec fn merged_scan(current: Seq<DeviceView>, previous: Seq<DeviceView>) -> Seq<
    DeviceView,
> {
    current.map_values(|d: DeviceView| with_previous(d, previous))
}

/// A device that no earlier MAC address matches keeps every field but the first
/// sighting, whoever had its address before.
pub proof fn law_address_match_moves_first_sighting_only(d: DeviceView, previous: Seq<DeviceView>)
    requires
        last_with_mac(previous, mac_key_spec(d)) is None,
    ensures
        with_previous(d, previous) == (DeviceView {
            first_seen: with_previous(d, previous).first_seen,
            ..d
        }),
{
}

/// A device whose MAC address conflicts with that of the last holder of its place, and
/// matches none that is known, is not touched.
pub proof fn law_mac_conflict_blocks_the_cache(d: DeviceView, previous: Seq<DeviceView>)
    requires
        last_with_mac(previous, mac_key_spec(d)) is None,
        last_at_place(previous, place_key_spec(d)) matches Some(p) && mac_conflict(d, p),
    ensures
        with_previous(d, previous) == d,
{
}

/// Cached names take nothing away.
proof fn lemma_cached_names(d: DeviceView, names: Seq<NameEvidenceView>)
    ensures
        d.extended_by(cached_names(d, names)),
    decreases names.len(),
{
    broadcast use {crate::model::lemma_extended_refl, crate::model::lemma_extended_trans};

    if names.len() > 0 {
        lemma_cached_names(d, names.drop_last());
        crate::model::law_reports_erase_nothing(
            cached_names(d, names.drop_last()),
            "cache"@,
            seq![],
            names.last().name,
            None,
            names.last().confidence,
        );
    }
}

/// A cached guess takes nothing away.
proof fn lemma_cached_guesses(d: DeviceView, previous: DeviceView)
    ensures
        d.extended_by(with_cached_guesses(d, previous)),
{
    broadcast use {crate::model::lemma_extended_refl, crate::model::lemma_extended_trans};

    let source = "cache"@;
    let a = match (d.make, previous.make) {
        (None, Some(g)) => {
            crate::model::law_reports_erase_nothing(d, source, seq![], g.value, None, g.confidence);
            d.set_make(g.value, source, g.confidence)
        },
        _ => d,
    };
    let b = match (a.model, previous.model) {
        (None, Some(g)) => {
            crate::model::law_reports_erase_nothing(a, source, seq![], g.value, None, g.confidence);
            a.set_model(g.value, source, g.confidence)
        },
        _ => a,
    };
    let c = match (b.os, previous.os) {
        (None, Some(g)) => {
            crate::model::law_reports_erase_nothing(b, source, seq![], g.value, None, g.confidence);
            b.set_os(g.value, source, g.confidence)
        },
        _ => b,
    };
    match (c.device_type, previous.device_type) {
        (None, Some(g)) => {
            crate::model::law_reports_erase_nothing(c, source, seq![], g.value, None, g.confidence);
        },
        _ => {},
    }
}

/// The cache takes nothing away from a device: it keeps its interface, its address,
/// and everything that was observed of it.
pub proof fn law_cache_keeps_all(d: DeviceView, previous: Seq<DeviceView>)
    ensures
        apply::keeps_all(d, with_previous(d, previous)),
        with_previous(d, previous).ip == d.ip,
        with_previous(d, previous).interface == d.interface,
        with_previous(d, previous).last_seen == d.last_seen,
{
    broadcast use {crate::model::lemma_extended_refl, crate::model::lemma_extended_trans};

    match last_with_mac(previous, mac_key_spec(d)) {
        Some(p) => {
            reveal(with_cached_identity);
            let a = DeviceView { first_seen: p.first_seen, ..d };
            let b = with_cached_vendor(a, p);
            assert(a.extended_by(b)) by {
                match (a.vendor, p.vendor) {
                    (None, Some(vendor)) => {
                        let v = DeviceView { vendor: Some(vendor), ..a };
                        assert(a.extended_by(v)) by {
                            reveal(DeviceView::extended_by);
                        }
                        crate::model::law_reports_erase_nothing(
                            v,
                            "cache"@,
                            "vendor"@,
                            vendor,
                            None,
                            55,
                        );
                    },
                    _ => {},
                }
            }
            let c = with_cached_label(b, p);
            assert(b.extended_by(c)) by {
                if b.hostname is None {
                    let n = cached_names(b, p.names);
                    lemma_cached_names(b, p.names);
                    match (n.hostname, p.hostname) {
                        (None, Some(hostname)) => {
                            crate::model::law_reports_erase_nothing(
                                n,
                                "cache"@,
                                seq![],
                                hostname,
                                None,
                                60,
                            );
                        },
                        _ => {},
                    }
                }
            }
            let e = with_cached_guesses(c, p);
            lemma_cached_guesses(c, p);
            assert(a.extended_by(e));
            reveal(DeviceView::extended_by);
        },
        None => {
            let w = with_previous(d, previous);
            assert(d == (DeviceView { first_seen: d.first_seen, last_seen: d.last_seen, ..w }));
        },
    }
}

/// A device that shows a vendor, a name, and all four guesses this time takes nothing
/// but the first sighting from the cache.
pub proof fn law_observed_identity_stands(d: DeviceView, previous: DeviceView)
    requires
        d.vendor is Some,
        d.hostname is Some,
        d.make is Some,
        d.model is Some,
        d.os is Some,
        d.device_type is Some,
    ensures
        with_cached_identity(d, previous) == (DeviceView { first_seen: previous.first_seen, ..d }),
{
    reveal(with_cached_identity);
}

} // verus!
