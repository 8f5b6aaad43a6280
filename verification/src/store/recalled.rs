//! What the cache gives back to a device.

use crate::model::{DeviceView, GuessView, NameEvidenceView};
use crate::model;
use crate::store;
use crate::text;
use vstd::prelude::*;

verus! {

/// Both devices show the twelve hexadecimal digits of one MAC address.
pub open spec fn same_mac(a: DeviceView, b: DeviceView) -> bool {
    &&& a.mac is Some && b.mac is Some
    &&& text::hex_digits_spec(a.mac->0).len() == 12
    &&& text::hex_digits_spec(a.mac->0) == text::hex_digits_spec(b.mac->0)
}

/// Both devices are at one place: the same address on the same interface.
pub open spec fn same_place(a: DeviceView, b: DeviceView) -> bool {
    a.ip == b.ip && a.interface == b.interface
}

/// A guess is as it was, or recalled where there was none.
pub open spec fn recalled(
    before: Option<GuessView>,
    after: Option<GuessView>,
    known: Option<GuessView>,
) -> bool {
    &&& before is Some ==> after == before
    &&& before is None && known is None ==> after is None
    &&& before is None && known is Some && !model::blank(known->0.value) ==> after == Some(
        GuessView { value: known->0.value, source: "cache"@, confidence: known->0.confidence },
    )
}

/// Names leave everything but names alone.
proof fn lemma_names_alone(d: DeviceView, names: Seq<NameEvidenceView>)
    ensures
        ({
            let after = store::cached_names(d, names);
            &&& after == (DeviceView { names: after.names, hostname: after.hostname, ..d })
            &&& forall|i: int|
                0 <= i < names.len() && model::normalize_name_spec(
                    (#[trigger] names[i]).name,
                ).len() > 0 ==> after.knows_name(
                    model::normalize_name_spec(names[i].name),
                    "cache"@,
                )
        }),
    decreases names.len(),
{
    reveal(DeviceView::add_name);
    if names.len() > 0 {
        let front = names.drop_last();
        let before = store::cached_names(d, front);
        let after = store::cached_names(d, names);
        lemma_names_alone(d, front);
        model::law_reports_are_held(
            before,
            "cache"@,
            seq![],
            names.last().name,
            None,
            names.last().confidence,
        );
        assert forall|i: int|
            0 <= i < names.len() && model::normalize_name_spec((#[trigger] names[i]).name).len()
                > 0 implies after.knows_name(
            model::normalize_name_spec(names[i].name),
            "cache"@,
        ) by {
            if i < front.len() {
                assert(front[i] == names[i]);
                let label = model::normalize_name_spec(names[i].name);
                assert(before.knows_name(label, "cache"@));
                let k = choose|k: int|
                    0 <= k < before.names.len() && text::lower_spec(
                        (#[trigger] before.names[k]).name,
                    ) == text::lower_spec(label) && before.names[k].source == "cache"@;
                assert(after.names[k] == before.names[k]);
            }
        }
    }
}

/// A device that shows the MAC address of one that was known takes its first sighting, and
/// where it has not shown them itself, its vendor, its names, and its guesses: each in its
/// place, and as told by the cache.
pub proof fn law_cache_fills_gaps(d: DeviceView, p: DeviceView)
    ensures
        ({
            let after = store::with_cached_identity(d, p);
            &&& after.first_seen == p.first_seen
            &&& after.last_seen == d.last_seen
            &&& after.ip == d.ip && after.interface == d.interface && after.mac == d.mac
            &&& d.vendor is Some ==> after.vendor == d.vendor
            &&& d.vendor is None ==> after.vendor == p.vendor
            &&& recalled(d.make, after.make, p.make)
            &&& recalled(d.model, after.model, p.model)
            &&& recalled(d.os, after.os, p.os)
            &&& recalled(d.device_type, after.device_type, p.device_type)
            &&& after.services == d.services
            &&& d.hostname is Some ==> after.names == d.names && after.hostname == d.hostname
            &&& d.hostname is None ==> forall|i: int|
                0 <= i < p.names.len() && model::normalize_name_spec(
                    (#[trigger] p.names[i]).name,
                ).len() > 0 ==> after.knows_name(
                    model::normalize_name_spec(p.names[i].name),
                    "cache"@,
                )
        }),
{
    reveal(store::with_cached_identity);
    reveal(DeviceView::add_name);
    reveal(DeviceView::add_evidence);
    reveal(DeviceView::set_make);
    reveal(DeviceView::set_model);
    reveal(DeviceView::set_os);
    reveal(DeviceView::set_device_type);
    let a = DeviceView { first_seen: p.first_seen, ..d };
    let b = store::with_cached_vendor(a, p);
    let n = store::cached_names(b, p.names);
    lemma_names_alone(b, p.names);
    let c = store::with_cached_label(b, p);
    assert(c == (DeviceView { names: c.names, hostname: c.hostname, ..b }));
    let after = store::with_cached_identity(d, p);
    assert(after.names == c.names);
    if d.hostname is None {
        assert forall|i: int|
            0 <= i < p.names.len() && model::normalize_name_spec((#[trigger] p.names[i]).name).len()
                > 0 implies after.knows_name(
            model::normalize_name_spec(p.names[i].name),
            "cache"@,
        ) by {
            let label = model::normalize_name_spec(p.names[i].name);
            assert(n.knows_name(label, "cache"@));
            let k = choose|k: int|
                0 <= k < n.names.len() && text::lower_spec((#[trigger] n.names[k]).name)
                    == text::lower_spec(label) && n.names[k].source == "cache"@;
            assert(after.names[k] == n.names[k]);
        }
    }
}

/// Keys of MAC addresses are alike where the addresses are.
proof fn lemma_mac_keys(a: DeviceView, b: DeviceView)
    ensures
        store::mac_key_spec(a) is Some && store::mac_key_spec(a) == store::mac_key_spec(b)
            <==> same_mac(a, b),
{
    if store::mac_key_spec(a) is Some && store::mac_key_spec(b) is Some {
        let x = text::hex_digits_spec(a.mac->0);
        let y = text::hex_digits_spec(b.mac->0);
        if "mac:"@ + x == "mac:"@ + y {
            let n = "mac:"@.len() as int;
            assert(x =~= ("mac:"@ + x).skip(n));
            assert(y =~= ("mac:"@ + y).skip(n));
        }
    }
}

/// The last of several devices with a MAC address.
proof fn lemma_last_with_mac(d: DeviceView, all: Seq<DeviceView>)
    ensures
        match store::last_with_mac(all, store::mac_key_spec(d)) {
            Some(p) => exists|i: int|
                0 <= i < all.len() && #[trigger] all[i] == p && same_mac(d, p) && forall|j: int|
                    i < j < all.len() ==> !same_mac(d, #[trigger] all[j]),
            None => forall|j: int| 0 <= j < all.len() ==> !same_mac(d, #[trigger] all[j]),
        },
    decreases all.len(),
{
    if all.len() > 0 {
        let front = all.drop_last();
        lemma_last_with_mac(d, front);
        lemma_mac_keys(d, all.last());
        assert(all[all.len() - 1] == all.last());
        if store::mac_key_spec(d) is None {
            assert forall|j: int| 0 <= j < all.len() implies !same_mac(d, #[trigger] all[j]) by {
                lemma_mac_keys(d, all[j]);
            }
        } else if !same_mac(d, all.last()) {
            match store::last_with_mac(front, store::mac_key_spec(d)) {
                Some(p) => {
                    let i = choose|i: int|
                        0 <= i < front.len() && #[trigger] front[i] == p && same_mac(d, p)
                            && forall|j: int|
                            i < j < front.len() ==> !same_mac(d, #[trigger] front[j]);
                    assert(all[i] == p);
                    assert forall|j: int| i < j < all.len() implies !same_mac(
                        d,
                        #[trigger] all[j],
                    ) by {
                        if j < front.len() {
                            assert(front[j] == all[j]);
                        }
                    }
                },
                None => {
                    assert forall|j: int| 0 <= j < all.len() implies !same_mac(
                        d,
                        #[trigger] all[j],
                    ) by {
                        if j < front.len() {
                            assert(front[j] == all[j]);
                        }
                    }
                },
            }
        }
    }
}

/// A device is recognized by its MAC address: it takes what the last device with that
/// address is known for.
pub proof fn law_devices_are_recognized_by_their_mac(
    d: DeviceView,
    previous: Seq<DeviceView>,
    i: int,
)
    requires
        0 <= i < previous.len(),
        same_mac(d, previous[i]),
        forall|j: int| i < j < previous.len() ==> !same_mac(d, #[trigger] previous[j]),
    ensures
        store::with_previous(d, previous) == store::with_cached_identity(d, previous[i]),
{
    lemma_last_with_mac(d, previous);
    match store::last_with_mac(previous, store::mac_key_spec(d)) {
        Some(p) => {
            let k = choose|k: int|
                0 <= k < previous.len() && #[trigger] previous[k] == p && same_mac(d, p) && forall|
                    j: int,
                |
                    k < j < previous.len() ==> !same_mac(d, #[trigger] previous[j]);
            if k < i {
                assert(!same_mac(d, previous[i]));
            } else if i < k {
                assert(!same_mac(d, previous[k]));
            }
        },
        None => {
            assert(!same_mac(d, previous[i]));
        },
    }
}

/// A device whose MAC address was not known takes nothing but a first sighting: that of
/// the last device at its place, unless both show MAC addresses that differ.
pub proof fn law_places_give_first_sightings_only(
    d: DeviceView,
    previous: Seq<DeviceView>,
)
    requires
        forall|j: int| 0 <= j < previous.len() ==> !same_mac(d, #[trigger] previous[j]),
    ensures
        ({
            let after = store::with_previous(d, previous);
            &&& after == (DeviceView { first_seen: after.first_seen, ..d })
            &&& (forall|j: int| 0 <= j < previous.len() ==> store::place_key_spec(
                #[trigger] previous[j],
            ) != store::place_key_spec(d)) ==> after == d
            &&& forall|i: int|
                0 <= i < previous.len() && same_place(d, #[trigger] previous[i]) && (forall|j: int|
                    i < j < previous.len() ==> store::place_key_spec(#[trigger] previous[j])
                        != store::place_key_spec(d)) ==> after.first_seen == (if d.mac is Some
                    && previous[i].mac is Some && text::hex_digits_spec(d.mac->0)
                    != text::hex_digits_spec(previous[i].mac->0) {
                    d.first_seen
                } else {
                    previous[i].first_seen
                })
        }),
{
    lemma_last_with_mac(d, previous);
    let found = store::last_with_mac(previous, store::mac_key_spec(d));
    if found is Some {
        let k = choose|k: int|
            0 <= k < previous.len() && #[trigger] previous[k] == found->0 && same_mac(d, found->0)
                && forall|j: int| k < j < previous.len() ==> !same_mac(d, #[trigger] previous[j]);
        assert(!same_mac(d, previous[k]));
    }
    lemma_last_at_place(previous, store::place_key_spec(d));
    assert forall|i: int|
        0 <= i < previous.len() && same_place(d, #[trigger] previous[i]) && (forall|j: int|
            i < j < previous.len() ==> store::place_key_spec(#[trigger] previous[j])
                != store::place_key_spec(
                d,
            )) implies store::last_at_place(previous, store::place_key_spec(d)) == Some(
        previous[i],
    ) by {
        lemma_last_at(previous, store::place_key_spec(d), i);
    }
}

/// The last device at a place, from its end.
proof fn lemma_last_at(all: Seq<DeviceView>, key: Seq<char>, i: int)
    requires
        0 <= i < all.len(),
        store::place_key_spec(all[i]) == key,
        forall|j: int| i < j < all.len() ==> store::place_key_spec(#[trigger] all[j]) != key,
    ensures
        store::last_at_place(all, key) == Some(all[i]),
    decreases all.len(),
{
    if i < all.len() - 1 {
        let front = all.drop_last();
        assert(all[all.len() - 1] == all.last());
        assert forall|j: int| i < j < front.len() implies store::place_key_spec(#[trigger] front[j])
            != key by {
            assert(front[j] == all[j]);
        }
        lemma_last_at(front, key, i);
    }
}

/// A place that no device has.
proof fn lemma_last_at_place(all: Seq<DeviceView>, key: Seq<char>)
    ensures
        (forall|j: int| 0 <= j < all.len() ==> store::place_key_spec(#[trigger] all[j]) != key)
            ==> store::last_at_place(all, key) is None,
    decreases all.len(),
{
    if all.len() > 0 {
        let front = all.drop_last();
        lemma_last_at_place(front, key);
        assert(all[all.len() - 1] == all.last());
        if forall|j: int| 0 <= j < all.len() ==> store::place_key_spec(#[trigger] all[j]) != key {
            assert forall|j: int| 0 <= j < front.len() implies store::place_key_spec(
                #[trigger] front[j],
            ) != key by {
                assert(front[j] == all[j]);
            }
        }
    }
}

} // verus!
