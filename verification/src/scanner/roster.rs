//! The devices of one interface, by address.

use crate::addr::IpAddr;
use crate::model::{Device, DeviceView, Timestamp};
use crate::sort::{insert, SortOrder};
use crate::sort;
use crate::text::owned;
use vstd::prelude::*;

verus! {

/// Devices by address.
pub struct DeviceByAddress {}

impl SortOrder<Device> for DeviceByAddress {
    open spec fn before(a: DeviceView, b: DeviceView) -> bool {
        a.ip.less_spec(b.ip)
    }

    fn comes_before(a: &Device, b: &Device) -> (r: bool) {
        a.ip.less(&b.ip)
    }

    proof fn asymmetric(a: DeviceView, b: DeviceView) {
    }

    proof fn transitive(a: DeviceView, b: DeviceView, c: DeviceView) {
    }
}

/// The devices stand by rising address, one for each.
pub open spec fn by_address(list: Seq<DeviceView>) -> bool {
    forall|i: int, j: int|
        0 <= i < j < list.len() ==> (#[trigger] list[i]).ip.less_spec((#[trigger] list[j]).ip)
}

/// The position of the device with an address, or the length when there is none.
pub open spec fn ip_place(list: Seq<DeviceView>, ip: IpAddr) -> int
    decreases list.len(),
{
    if list.len() == 0 || list[0].ip == ip {
        0
    } else {
        1 + ip_place(list.drop_first(), ip)
    }
}

/// What [`ip_place`] finds.
pub proof fn lemma_ip_place(list: Seq<DeviceView>, ip: IpAddr)
    ensures
        0 <= ip_place(list, ip) <= list.len(),
        ip_place(list, ip) < list.len() ==> list[ip_place(list, ip)].ip == ip,
        forall|i: int| 0 <= i < ip_place(list, ip) ==> (#[trigger] list[i]).ip != ip,
    decreases list.len(),
{
    if list.len() > 0 && list[0].ip != ip {
        let rest = list.drop_first();
        lemma_ip_place(rest, ip);
        assert forall|i: int| 0 <= i < ip_place(list, ip) implies (#[trigger] list[i]).ip != ip by {
            if i > 0 {
                assert(rest[i - 1] == list[i]);
            }
        }
    }
}

/// The place of an address is the first position that holds it.
pub proof fn lemma_place_is(list: Seq<DeviceView>, ip: IpAddr, k: int)
    requires
        0 <= k < list.len(),
        list[k].ip == ip,
        forall|i: int| 0 <= i < k ==> (#[trigger] list[i]).ip != ip,
    ensures
        ip_place(list, ip) == k,
{
    lemma_ip_place(list, ip);
    let p = ip_place(list, ip);
    if p > k {
        assert(list[k].ip != ip);
    }
    if p < k {
        assert(list[p].ip != ip);
    }
}

/// A device that was first seen on an interface.
pub open spec fn fresh_device(ip: IpAddr, now: Timestamp, interface: Seq<char>) -> DeviceView {
    DeviceView { interface: Some(interface), ..DeviceView::new(ip, now) }
}

/// The device with an interface, unless it has one.
pub open spec fn on_interface(d: DeviceView, interface: Seq<char>) -> DeviceView {
    if d.interface is None {
        DeviceView { interface: Some(interface), ..d }
    } else {
        d
    }
}

/// The list with a device at the address: the one that was there, on the interface
/// where it had none, or a fresh one.
pub open spec fn with_device(
    list: Seq<DeviceView>,
    ip: IpAddr,
    now: Timestamp,
    interface: Seq<char>,
) -> Seq<DeviceView> {
    let k = ip_place(list, ip);
    if k < list.len() {
        list.update(k, on_interface(list[k], interface))
    } else {
        sort::insert_spec::<Device, DeviceByAddress>(list, fresh_device(ip, now, interface))
    }
}

/// Inserting a device with a new address keeps the order.
pub proof fn lemma_insert_by_address(list: Seq<DeviceView>, d: DeviceView)
    requires
        by_address(list),
        ip_place(list, d.ip) >= list.len(),
    ensures
        by_address(sort::insert_spec::<Device, DeviceByAddress>(list, d)),
        sort::insert_spec::<Device, DeviceByAddress>(list, d).len() == list.len() + 1,
        ({
            let r = sort::insert_spec::<Device, DeviceByAddress>(list, d);
            let k = ip_place(r, d.ip);
            0 <= k < r.len() && r == list.insert(k, d)
        }),
    decreases list.len(),
{
    let r = sort::insert_spec::<Device, DeviceByAddress>(list, d);
    lemma_ip_place(list, d.ip);
    if list.len() == 0 || !d.ip.less_spec(list.last().ip) {
        assert(r =~= list.insert(list.len() as int, d));
        assert forall|i: int, j: int| 0 <= i < j < r.len() implies (#[trigger] r[i]).ip.less_spec(
            (#[trigger] r[j]).ip,
        ) by {
            if j == list.len() {
                assert(list[i].ip != d.ip);
                assert(list[list.len() - 1].ip != d.ip);
                assert(list.last().ip.less_spec(d.ip));
                if i < list.len() - 1 {
                    assert(list[i].ip.less_spec(list[list.len() - 1].ip));
                }
            } else {
                assert(list[i].ip.less_spec(list[j].ip));
            }
        }
        assert forall|i: int| 0 <= i < list.len() implies (#[trigger] r[i]).ip != d.ip by {
            assert(r[i] == list[i]);
        }
        lemma_place_is(r, d.ip, list.len() as int);
    } else {
        let front = list.drop_last();
        let last = list.last();
        let inner = sort::insert_spec::<Device, DeviceByAddress>(front, d);
        assert forall|i: int, j: int| 0 <= i < j < front.len() implies (
        #[trigger] front[i]).ip.less_spec((#[trigger] front[j]).ip) by {
            assert(list[i].ip.less_spec(list[j].ip));
        }
        lemma_ip_place(front, d.ip);
        if ip_place(front, d.ip) < front.len() {
            assert(list[ip_place(front, d.ip)].ip == d.ip);
        }
        lemma_insert_by_address(front, d);
        let k = ip_place(inner, d.ip);
        assert(r =~= inner.push(last));
        lemma_ip_place(inner, d.ip);
        assert forall|i: int| 0 <= i < k implies (#[trigger] r[i]).ip != d.ip by {
            assert(r[i] == inner[i]);
        }
        lemma_place_is(r, d.ip, k);
        assert(r =~= list.insert(k, d));
        assert forall|i: int, j: int| 0 <= i < j < r.len() implies (#[trigger] r[i]).ip.less_spec(
            (#[trigger] r[j]).ip,
        ) by {
            if j < inner.len() {
                assert(inner[i].ip.less_spec(inner[j].ip));
            } else if i == k {
                assert(d.ip.less_spec(last.ip));
            } else {
                let m = if i < k {
                    i
                } else {
                    i - 1
                };
                assert(r[i] == list[m]);
                assert(list[m].ip.less_spec(list[list.len() - 1].ip));
            }
        }
    }
}

/// Putting a device at an address keeps the order, and no other device changes.
pub proof fn lemma_with_device(
    list: Seq<DeviceView>,
    ip: IpAddr,
    now: Timestamp,
    interface: Seq<char>,
)
    requires
        by_address(list),
    ensures
        ({
            let r = with_device(list, ip, now, interface);
            let k = ip_place(r, ip);
            &&& by_address(r)
            &&& 0 <= k < r.len()
            &&& r[k].ip == ip
        }),
{
    lemma_ip_place(list, ip);
    let k = ip_place(list, ip);
    let r = with_device(list, ip, now, interface);
    if k < list.len() {
        assert forall|i: int, j: int| 0 <= i < j < r.len() implies (#[trigger] r[i]).ip.less_spec(
            (#[trigger] r[j]).ip,
        ) by {
            assert(list[i].ip.less_spec(list[j].ip));
        }
        assert forall|i: int| 0 <= i < k implies (#[trigger] r[i]).ip != ip by {
            assert(r[i] == list[i]);
        }
        lemma_place_is(r, ip, k);
    } else {
        lemma_insert_by_address(list, fresh_device(ip, now, interface));
    }
}

/// Putting a device at an address brings in no other: each device of the list was
/// there, or is the one at the address.
pub proof fn lemma_with_device_members(
    list: Seq<DeviceView>,
    ip: IpAddr,
    now: Timestamp,
    interface: Seq<char>,
    i: int,
)
    requires
        by_address(list),
        0 <= i < with_device(list, ip, now, interface).len(),
    ensures
        ({
            let d = with_device(list, ip, now, interface)[i];
            ||| list.contains(d)
            ||| d == fresh_device(ip, now, interface)
            ||| exists|k: int| 0 <= k < list.len() && d == on_interface(#[trigger] list[k], interface)
        }),
{
    lemma_ip_place(list, ip);
    let k = ip_place(list, ip);
    let r = with_device(list, ip, now, interface);
    if k < list.len() {
        if i == k {
            assert(r[i] == on_interface(list[k], interface));
        } else {
            assert(r[i] == list[i]);
        }
    } else {
        let d = fresh_device(ip, now, interface);
        lemma_insert_by_address(list, d);
        let m = ip_place(r, ip);
        assert(r =~= list.insert(m, d));
        if i < m {
            assert(r[i] == list[i]);
        } else if i > m {
            assert(r[i] == list[i - 1]);
        }
    }
}

/// Changing a device in place keeps the order as long as its address stays.
pub proof fn lemma_update_by_address(list: Seq<DeviceView>, k: int, d: DeviceView)
    requires
        by_address(list),
        0 <= k < list.len(),
        d.ip == list[k].ip,
    ensures
        by_address(list.update(k, d)),
{
    let r = list.update(k, d);
    assert forall|i: int, j: int| 0 <= i < j < r.len() implies (#[trigger] r[i]).ip.less_spec(
        (#[trigger] r[j]).ip,
    ) by {
        assert(list[i].ip.less_spec(list[j].ip));
    }
}

/// Finds the device with an address.
pub fn find_ip(list: &Vec<Device>, ip: IpAddr) -> (r: usize)
    ensures
        r == ip_place(list.deep_view(), ip),
        r <= list@.len(),
{
    let ghost views = list.deep_view();
    let mut i: usize = 0;
    proof {
        assert(views.skip(0) =~= views);
    }
    while i < list.len()
        invariant
            i <= list@.len(),
            views == list.deep_view(),
            ip_place(views, ip) == i + ip_place(views.skip(i as int), ip),
        decreases list@.len() - i,
    {
        proof {
            assert(views.skip(i as int)[0] == list@[i as int]@);
            assert(views.skip(i as int).drop_first() =~= views.skip(i + 1));
        }
        if list[i].ip == ip {
            return i;
        }
        i = i + 1;
    }
    i
}

/// Puts a device at an address, and gives back its place.
pub fn upsert_device(list: &mut Vec<Device>, ip: IpAddr, now: Timestamp, interface: &str) -> (r:
    usize)
    requires
        by_address(old(list).deep_view()),
    ensures
        final(list).deep_view() == with_device(old(list).deep_view(), ip, now, interface@),
        r == ip_place(final(list).deep_view(), ip),
        r < final(list)@.len(),
        by_address(final(list).deep_view()),
{
    proof {
        lemma_with_device(list.deep_view(), ip, now, interface@);
    }
    let ghost before = list.deep_view();
    let k: usize = find_ip(list, ip);
    if k < list.len() {
        if list[k].interface.is_none() {
            let mut device = list[k].clone();
            device.interface = Some(owned(interface));
            let ghost view = device@;
            list.set(k, device);
            proof {
                assert(list.deep_view() =~= before.update(k as int, view));
            }
        } else {
            proof {
                assert(list.deep_view() =~= before.update(k as int, before[k as int]));
            }
        }
    } else {
        let mut device = Device::new(ip, now);
        device.interface = Some(owned(interface));
        proof {
            assert(device@ == fresh_device(ip, now, interface@));
        }
        insert::<Device, DeviceByAddress>(list, device);
    }
    find_ip(list, ip)
}

/// The addresses of the devices, in order.
pub open spec fn addresses_spec(list: Seq<DeviceView>) -> Seq<IpAddr> {
    list.map_values(|d: DeviceView| d.ip)
}

/// Lists the addresses of the devices.
pub fn addresses(list: &Vec<Device>) -> (r: Vec<IpAddr>)
    ensures
        r@ == addresses_spec(list.deep_view()),
{
    let mut out: Vec<IpAddr> = Vec::new();
    let mut i: usize = 0;
    while i < list.len()
        invariant
            i <= list@.len(),
            out@.len() == i,
            forall|k: int| 0 <= k < i ==> #[trigger] out@[k] == list@[k]@.ip,
        decreases list@.len() - i,
    {
        out.push(list[i].ip);
        i = i + 1;
    }
    proof {
        assert(out@ =~= addresses_spec(list.deep_view()));
    }
    out
}

} // verus!
