//! Passive discovery: what neighbors advertise of themselves, matched with devices.
//!
//! Advertisements are remembered for as long as they say, so that a device which a
//! later scan finds gains what was heard of it before.

use crate::addr::{IpAddr, Ipv4Net};
use crate::discovery::l2::{L2Advertisement, L2AdvertisementView};
use crate::discovery::lldp::LldpInfoView;
use crate::identity_rules::{apply_identity_rules, RuleDb, RuleDbView};
use crate::identity_rules;
use crate::model::{Device, DeviceView, Timestamp};
use crate::net::{parse_target, select_interface, InterfaceInfo, InterfaceInfoView};
use crate::net;
use crate::same::{holds, Same};
use crate::scanner::apply::{apply_cdp_info, apply_lldp_info, merge_device};
use crate::scanner::apply;
use crate::scanner::phases::target_contains_ip;
use crate::scanner::phases;
use crate::scanner::roster::{find_ip, DeviceByAddress};
use crate::scanner::roster;
use crate::scanner::types::{ScanConfig, ScanConfigView, ScanEvent, ScanEventView};
use crate::sort::{insert, SortOrder};
use crate::sort;
use crate::store::known_mac_conflict;
use crate::store;
use crate::text::{chars, concat, concat4, hex_digits, less, owned, same, str_eq};
use crate::text;
use crate::text_map::{TextMap, TextMapView};
use vstd::prelude::*;

verus! {

/// How long, in seconds, an LLDP advertisement holds that does not say.
pub const DEFAULT_LLDP_TTL: u64 = 120;

/// An advertisement, when it was heard, how long it holds in seconds, and whom it may
/// be about.
#[derive(Debug, PartialEq, Eq)]
pub struct PassiveObservation {
    pub key: String,
    pub received_at: Timestamp,
    pub ttl: u64,
    pub candidate_ips: Vec<IpAddr>,
    pub candidate_macs: Vec<String>,
    pub advertisement: L2Advertisement,
}

/// The mathematical content of a [`PassiveObservation`].
#[verifier::ext_equal]
pub struct PassiveObservationView {
    pub key: Seq<char>,
    pub received_at: Timestamp,
    pub ttl: u64,
    pub candidate_ips: Seq<IpAddr>,
    pub candidate_macs: Seq<Seq<char>>,
    pub advertisement: L2AdvertisementView,
}

impl View for PassiveObservation {
    type V = PassiveObservationView;

    open spec fn view(&self) -> PassiveObservationView {
        PassiveObservationView {
            key: self.key@,
            received_at: self.received_at,
            ttl: self.ttl,
            candidate_ips: self.candidate_ips@,
            candidate_macs: self.candidate_macs.deep_view(),
            advertisement: self.advertisement@,
        }
    }
}

impl DeepView for PassiveObservation {
    type V = PassiveObservationView;

    open spec fn deep_view(&self) -> PassiveObservationView {
        self@
    }
}

impl Clone for PassiveObservation {
    fn clone(&self) -> (r: Self)
        ensures
            r@ == self@,
    {
        let r = PassiveObservation {
            key: self.key.clone(),
            received_at: self.received_at,
            ttl: self.ttl,
            candidate_ips: self.candidate_ips.clone(),
            candidate_macs: self.candidate_macs.clone(),
            advertisement: self.advertisement.clone(),
        };
        proof {
            assert(r.candidate_ips@ =~= self.candidate_ips@);
            assert(r.candidate_macs.deep_view() =~= self.candidate_macs.deep_view());
        }
        r
    }
}

/// Two MAC addresses are the same, whatever separates their digits.
pub open spec fn same_mac_spec(a: Seq<char>, b: Seq<char>) -> bool {
    text::hex_digits_spec(a) == text::hex_digits_spec(b)
}

/// Reports whether two MAC addresses are the same.
pub fn same_mac(a: &str, b: &str) -> (r: bool)
    ensures
        r == same_mac_spec(a@, b@),
{
    same(hex_digits(chars(a).as_slice()).as_slice(), hex_digits(chars(b).as_slice()).as_slice())
}

/// The device has this MAC address.
pub open spec fn has_mac(d: DeviceView, mac: Seq<char>) -> bool {
    d.mac matches Some(own) && same_mac_spec(own, mac)
}

/// Reports whether a device has a MAC address.
fn device_has_mac(device: &Device, mac: &str) -> (r: bool)
    ensures
        r == has_mac(device@, mac@),
{
    match &device.mac {
        Some(own) => same_mac(own.as_str(), mac),
        None => false,
    }
}

/// The MAC addresses that an LLDP advertisement may be about.
pub open spec fn lldp_macs(info: LldpInfoView) -> Seq<Seq<char>> {
    match info.chassis_mac {
        Some(mac) => seq![mac, info.source_mac],
        None => seq![info.source_mac],
    }
}

impl PassiveObservationView {
    /// What is observed when an advertisement is heard.
    pub open spec fn from_advertisement(
        advertisement: L2AdvertisementView,
        received_at: Timestamp,
    ) -> PassiveObservationView {
        match advertisement {
            L2AdvertisementView::Lldp(info) => PassiveObservationView {
                key: "lldp|"@ + info.identity_key(),
                received_at,
                ttl: match info.ttl {
                    Some(ttl) => ttl as u64,
                    None => DEFAULT_LLDP_TTL,
                },
                candidate_ips: info.management_addresses,
                candidate_macs: lldp_macs(info),
                advertisement,
            },
            L2AdvertisementView::Cdp(info) => PassiveObservationView {
                key: "cdp|"@ + info.identity_key(),
                received_at,
                ttl: info.ttl as u64,
                candidate_ips: info.management_addresses + info.addresses,
                candidate_macs: seq![info.source_mac],
                advertisement,
            },
        }
    }

    /// The advertisement no longer holds.
    pub open spec fn expired(self, now: Timestamp) -> bool {
        self.received_at + self.ttl * 1_000_000_000 <= now
    }

    /// The advertisement is about this device.
    pub open spec fn about(self, d: DeviceView) -> bool {
        self.candidate_ips.contains(d.ip) || exists|i: int|
            0 <= i < self.candidate_macs.len() && has_mac(d, #[trigger] self.candidate_macs[i])
    }

    /// The device after the advertisement.
    pub open spec fn applied_to(self, d: DeviceView, oui_db: Option<TextMapView>) -> DeviceView {
        match self.advertisement {
            L2AdvertisementView::Lldp(info) => apply::apply_lldp_info_spec(d, info, oui_db),
            L2AdvertisementView::Cdp(info) => apply::apply_cdp_info_spec(d, info, oui_db),
        }
    }

    /// The addresses to update: those that the advertisement names and that lie in a
    /// target network, and those of known devices with a MAC address that it names.
    pub open spec fn target_ips(self, devices: Seq<DeviceView>, targets: Seq<Ipv4Net>) -> Seq<
        IpAddr,
    > {
        with_macs(with_targets(seq![], targets, self.candidate_ips), self.candidate_macs, devices)
    }
}

/// Addresses in order.
pub struct AddressOrder {}

impl SortOrder<IpAddr> for AddressOrder {
    open spec fn before(a: IpAddr, b: IpAddr) -> bool {
        a.less_spec(b)
    }

    fn comes_before(a: &IpAddr, b: &IpAddr) -> (r: bool) {
        a.less(b)
    }

    proof fn asymmetric(a: IpAddr, b: IpAddr) {
    }

    proof fn transitive(a: IpAddr, b: IpAddr, c: IpAddr) {
    }
}

/// The addresses with one more in its place, unless it is there.
pub open spec fn with_ip(ips: Seq<IpAddr>, ip: IpAddr) -> Seq<IpAddr> {
    if ips.contains(ip) {
        ips
    } else {
        sort::insert_spec::<IpAddr, AddressOrder>(ips, ip)
    }
}

/// The addresses with those candidates that lie in a target network.
pub open spec fn with_candidates(ips: Seq<IpAddr>, target: Ipv4Net, candidates: Seq<IpAddr>) -> Seq<
    IpAddr,
>
    decreases candidates.len(),
{
    if candidates.len() == 0 {
        ips
    } else {
        let before = with_candidates(ips, target, candidates.drop_last());
        if phases::in_target(target, candidates.last()) {
            with_ip(before, candidates.last())
        } else {
            before
        }
    }
}

/// The addresses with those candidates that lie in any of the target networks.
pub open spec fn with_targets(
    ips: Seq<IpAddr>,
    targets: Seq<Ipv4Net>,
    candidates: Seq<IpAddr>,
) -> Seq<IpAddr>
    decreases targets.len(),
{
    if targets.len() == 0 {
        ips
    } else {
        with_candidates(
            with_targets(ips, targets.drop_last(), candidates),
            targets.last(),
            candidates,
        )
    }
}

/// The position of the first device with a MAC address, or the length when there is
/// none.
pub open spec fn mac_place(devices: Seq<DeviceView>, mac: Seq<char>) -> int
    decreases devices.len(),
{
    if devices.len() == 0 || has_mac(devices[0], mac) {
        0
    } else {
        1 + mac_place(devices.drop_first(), mac)
    }
}

/// The addresses with those of the devices that have one of the MAC addresses.
pub open spec fn with_macs(
    ips: Seq<IpAddr>,
    macs: Seq<Seq<char>>,
    devices: Seq<DeviceView>,
) -> Seq<IpAddr>
    decreases macs.len(),
{
    if macs.len() == 0 {
        ips
    } else {
        let before = with_macs(ips, macs.drop_last(), devices);
        let k = mac_place(devices, macs.last());
        if k < devices.len() {
            with_ip(before, devices[k].ip)
        } else {
            before
        }
    }
}

/// Adds an address in its place.
fn add_ip(ips: &mut Vec<IpAddr>, ip: IpAddr)
    ensures
        final(ips)@ == with_ip(old(ips)@, ip),
{
    proof {
        assert(ips.deep_view() =~= ips@);
    }
    if !holds(ips, &ip) {
        insert::<IpAddr, AddressOrder>(ips, ip);
        proof {
            assert(ips.deep_view() =~= ips@);
        }
    }
}

/// Finds the first device with a MAC address.
fn find_device_mac(devices: &Vec<Device>, mac: &str) -> (r: usize)
    ensures
        r == mac_place(devices.deep_view(), mac@),
        r <= devices@.len(),
{
    let ghost views = devices.deep_view();
    let mut i: usize = 0;
    proof {
        assert(views.skip(0) =~= views);
    }
    while i < devices.len()
        invariant
            i <= devices@.len(),
            views == devices.deep_view(),
            mac_place(views, mac@) == i + mac_place(views.skip(i as int), mac@),
        decreases devices@.len() - i,
    {
        proof {
            assert(views.skip(i as int)[0] == devices@[i as int]@);
            assert(views.skip(i as int).drop_first() =~= views.skip(i + 1));
        }
        if device_has_mac(&devices[i], mac) {
            return i;
        }
        i = i + 1;
    }
    i
}

/// The target networks are networks.
pub open spec fn valid_targets(targets: Seq<Ipv4Net>) -> bool {
    forall|i: int| 0 <= i < targets.len() ==> (#[trigger] targets[i]).valid()
}

impl PassiveObservation {
    /// What is observed when an advertisement is heard.
    pub fn from_advertisement_at(advertisement: L2Advertisement, received_at: Timestamp) -> (r: Self)
        ensures
            r@ == PassiveObservationView::from_advertisement(advertisement@, received_at),
    {
        match &advertisement {
            L2Advertisement::Lldp(info) => {
                let mut macs: Vec<String> = Vec::new();
                match &info.chassis_mac {
                    Some(mac) => {
                        macs.push(mac.clone());
                    },
                    None => {},
                }
                macs.push(info.source_mac.clone());
                proof {
                    assert(macs.deep_view() =~= lldp_macs(info@));
                }
                let r = PassiveObservation {
                    key: concat("lldp|", info.identity_key().as_str()),
                    received_at,
                    ttl: match info.ttl {
                        Some(ttl) => ttl as u64,
                        None => DEFAULT_LLDP_TTL,
                    },
                    candidate_ips: info.management_addresses.clone(),
                    candidate_macs: macs,
                    advertisement: advertisement.clone(),
                };
                proof {
                    assert(r.candidate_ips@ =~= info.management_addresses@);
                }
                r
            },
            L2Advertisement::Cdp(info) => {
                let mut ips: Vec<IpAddr> = info.management_addresses.clone();
                let mut more: Vec<IpAddr> = info.addresses.clone();
                proof {
                    assert(ips@ =~= info.management_addresses@);
                    assert(more@ =~= info.addresses@);
                }
                ips.append(&mut more);
                let mut macs: Vec<String> = Vec::new();
                macs.push(info.source_mac.clone());
                proof {
                    assert(macs.deep_view() =~= seq![info@.source_mac]);
                }
                PassiveObservation {
                    key: concat("cdp|", info.identity_key().as_str()),
                    received_at,
                    ttl: info.ttl as u64,
                    candidate_ips: ips,
                    candidate_macs: macs,
                    advertisement: advertisement.clone(),
                }
            },
        }
    }

    /// Reports whether the advertisement no longer holds.
    pub fn is_expired(&self, now: Timestamp) -> (r: bool)
        ensures
            r == self@.expired(now),
    {
        match self.received_at.checked_add(self.ttl as i128 * 1_000_000_000) {
            Some(end) => end <= now,
            None => false,
        }
    }

    /// Lists the addresses to update.
    pub fn target_ips(&self, devices: &Vec<Device>, targets: &Vec<Ipv4Net>) -> (r: Vec<IpAddr>)
        requires
            valid_targets(targets@),
        ensures
            r@ == self@.target_ips(devices.deep_view(), targets@),
    {
        let mut ips: Vec<IpAddr> = Vec::new();
        let mut i: usize = 0;
        while i < targets.len()
            invariant
                i <= targets@.len(),
                valid_targets(targets@),
                ips@ == with_targets(seq![], targets@.take(i as int), self.candidate_ips@),
            decreases targets@.len() - i,
        {
            proof {
                assert(targets@.take(i + 1).drop_last() =~= targets@.take(i as int));
            }
            let target = targets[i];
            let ghost before = ips@;
            let mut j: usize = 0;
            while j < self.candidate_ips.len()
                invariant
                    j <= self.candidate_ips@.len(),
                    target.valid(),
                    ips@ == with_candidates(before, target, self.candidate_ips@.take(j as int)),
                decreases self.candidate_ips@.len() - j,
            {
                proof {
                    assert(self.candidate_ips@.take(j + 1).drop_last() =~= self.candidate_ips@.take(
                        j as int,
                    ));
                }
                if target_contains_ip(target, self.candidate_ips[j]) {
                    add_ip(&mut ips, self.candidate_ips[j]);
                }
                j = j + 1;
            }
            proof {
                assert(self.candidate_ips@.take(j as int) =~= self.candidate_ips@);
            }
            i = i + 1;
        }
        proof {
            assert(targets@.take(i as int) =~= targets@);
        }
        let ghost start = ips@;
        let ghost macs = self.candidate_macs.deep_view();
        let ghost views = devices.deep_view();
        let mut m: usize = 0;
        while m < self.candidate_macs.len()
            invariant
                m <= self.candidate_macs@.len(),
                macs == self.candidate_macs.deep_view(),
                views == devices.deep_view(),
                ips@ == with_macs(start, macs.take(m as int), views),
            decreases self.candidate_macs@.len() - m,
        {
            proof {
                assert(macs.take(m + 1).drop_last() =~= macs.take(m as int));
                assert(macs.take(m + 1).last() == self.candidate_macs@[m as int]@);
            }
            let k: usize = find_device_mac(devices, self.candidate_macs[m].as_str());
            if k < devices.len() {
                add_ip(&mut ips, devices[k].ip);
            }
            m = m + 1;
        }
        proof {
            assert(macs.take(m as int) =~= macs);
        }
        ips
    }

    /// Reports whether the advertisement is about a device.
    pub fn matches_device(&self, device: &Device) -> (r: bool)
        ensures
            r == self@.about(device@),
    {
        proof {
            assert(self.candidate_ips.deep_view() =~= self.candidate_ips@);
        }
        if holds(&self.candidate_ips, &device.ip) {
            return true;
        }
        let ghost macs = self.candidate_macs.deep_view();
        let mut i: usize = 0;
        while i < self.candidate_macs.len()
            invariant
                i <= self.candidate_macs@.len(),
                macs == self.candidate_macs.deep_view(),
                macs == self@.candidate_macs,
                forall|k: int| 0 <= k < i ==> !has_mac(device@, #[trigger] macs[k]),
            decreases self.candidate_macs@.len() - i,
        {
            proof {
                assert(macs[i as int] == self.candidate_macs@[i as int]@);
            }
            if device_has_mac(device, self.candidate_macs[i].as_str()) {
                proof {
                    assert(has_mac(device@, self@.candidate_macs[i as int]));
                }
                return true;
            }
            i = i + 1;
        }
        false
    }

    /// Adds the advertisement to a device.
    pub fn apply_to_device(&self, device: &mut Device, oui_db: Option<&TextMap>)
        ensures
            final(device)@ == self@.applied_to(old(device)@, apply::opt_map(oui_db)),
            old(device)@.extended_by(final(device)@),
    {
        match &self.advertisement {
            L2Advertisement::Lldp(info) => apply_lldp_info(device, info.clone(), oui_db),
            L2Advertisement::Cdp(info) => apply_cdp_info(device, info.clone(), oui_db),
        }
    }
}

/// What is known on one interface: its target networks, its devices by address, and
/// the advertisements that still hold, by key.
#[derive(Debug, PartialEq, Eq)]
pub struct PassiveInterfaceState {
    pub interface: String,
    pub targets: Vec<Ipv4Net>,
    pub oui: bool,
    pub devices: Vec<Device>,
    pub pending_observations: Vec<PassiveObservation>,
}

/// The mathematical content of a [`PassiveInterfaceState`].
#[verifier::ext_equal]
pub struct PassiveInterfaceStateView {
    pub interface: Seq<char>,
    pub targets: Seq<Ipv4Net>,
    pub oui: bool,
    pub devices: Seq<DeviceView>,
    pub pending_observations: Seq<PassiveObservationView>,
}

impl View for PassiveInterfaceState {
    type V = PassiveInterfaceStateView;

    open spec fn view(&self) -> PassiveInterfaceStateView {
        PassiveInterfaceStateView {
            interface: self.interface@,
            targets: self.targets@,
            oui: self.oui,
            devices: self.devices.deep_view(),
            pending_observations: self.pending_observations.deep_view(),
        }
    }
}

impl DeepView for PassiveInterfaceState {
    type V = PassiveInterfaceStateView;

    open spec fn deep_view(&self) -> PassiveInterfaceStateView {
        self@
    }
}

impl Clone for PassiveInterfaceState {
    fn clone(&self) -> (r: Self)
        ensures
            r@ == self@,
    {
        let r = PassiveInterfaceState {
            interface: self.interface.clone(),
            targets: self.targets.clone(),
            oui: self.oui,
            devices: self.devices.clone(),
            pending_observations: self.pending_observations.clone(),
        };
        proof {
            assert(r.targets@ =~= self.targets@);
            assert(r.devices.deep_view() =~= self.devices.deep_view());
            assert(r.pending_observations.deep_view() =~= self.pending_observations.deep_view());
        }
        r
    }
}

/// Advertisements by key.
pub struct ObservationByKey {}

impl SortOrder<PassiveObservation> for ObservationByKey {
    open spec fn before(a: PassiveObservationView, b: PassiveObservationView) -> bool {
        text::less_spec(a.key, b.key)
    }

    fn comes_before(a: &PassiveObservation, b: &PassiveObservation) -> (r: bool) {
        less(chars(a.key.as_str()).as_slice(), chars(b.key.as_str()).as_slice())
    }

    proof fn asymmetric(a: PassiveObservationView, b: PassiveObservationView) {
        text::lemma_less_total(a.key, b.key);
    }

    proof fn transitive(
        a: PassiveObservationView,
        b: PassiveObservationView,
        c: PassiveObservationView,
    ) {
        text::lemma_less_total(a.key, b.key);
        text::lemma_less_total(b.key, c.key);
        text::lemma_less_total(a.key, c.key);
        if a.key != b.key && b.key != c.key {
            text::lemma_less_transitive(a.key, b.key, c.key);
        }
    }
}

/// The position of the advertisement with a key, or the length when there is none.
pub open spec fn observation_place(all: Seq<PassiveObservationView>, key: Seq<char>) -> int
    decreases all.len(),
{
    if all.len() == 0 || all[0].key == key {
        0
    } else {
        1 + observation_place(all.drop_first(), key)
    }
}

/// The advertisements with one more, in the place of an earlier one of the same
/// neighbor.
pub open spec fn with_observation(
    all: Seq<PassiveObservationView>,
    o: PassiveObservationView,
) -> Seq<PassiveObservationView> {
    let k = observation_place(all, o.key);
    if k < all.len() {
        all.update(k, o)
    } else {
        sort::insert_spec::<PassiveObservation, ObservationByKey>(all, o)
    }
}

/// The advertisements that still hold.
pub open spec fn unexpired(all: Seq<PassiveObservationView>, now: Timestamp) -> Seq<
    PassiveObservationView,
>
    decreases all.len(),
{
    if all.len() == 0 {
        seq![]
    } else {
        let before = unexpired(all.drop_last(), now);
        if all.last().expired(now) {
            before
        } else {
            before.push(all.last())
        }
    }
}

/// The device after several advertisements, as far as they are about the device as it
/// was at first.
pub open spec fn with_pending(
    d: DeviceView,
    first: DeviceView,
    all: Seq<PassiveObservationView>,
    oui_db: Option<TextMapView>,
) -> DeviceView
    decreases all.len(),
{
    if all.len() == 0 {
        d
    } else {
        let before = with_pending(d, first, all.drop_last(), oui_db);
        if all.last().about(first) {
            all.last().applied_to(before, oui_db)
        } else {
            before
        }
    }
}

/// A device united with a later record of it, which also fills a missing interface or
/// label.
pub open spec fn snapshot_merged(d: DeviceView, other: DeviceView) -> DeviceView {
    apply::merge_device_spec(
        DeviceView {
            interface: match d.interface {
                Some(interface) => Some(interface),
                None => other.interface,
            },
            hostname: match d.hostname {
                Some(hostname) => Some(hostname),
                None => other.hostname,
            },
            ..d
        },
        other,
    )
}

/// The devices after a scan saw one of them. A device whose MAC address changed is
/// another device, and takes the place of the old one.
pub open spec fn with_known(list: Seq<DeviceView>, d: DeviceView) -> Seq<DeviceView> {
    let k = roster::ip_place(list, d.ip);
    if k < list.len() {
        if store::mac_conflict(list[k], d) {
            list.update(k, d)
        } else {
            list.update(k, snapshot_merged(list[k], d))
        }
    } else {
        sort::insert_spec::<Device, DeviceByAddress>(list, d)
    }
}

impl PassiveInterfaceStateView {
    /// The targets are networks, and the devices stand by address.
    pub open spec fn valid(self) -> bool {
        valid_targets(self.targets) && roster::by_address(self.devices)
    }

    /// The vendor table that is used on this interface.
    pub open spec fn vendors(self, oui_db: TextMapView) -> Option<TextMapView> {
        if self.oui {
            Some(oui_db)
        } else {
            None
        }
    }

    /// What is known of a device after a scan saw it: the earlier records, the
    /// advertisements that still hold and are about it, and the rules.
    pub open spec fn seen_device(
        self,
        d: DeviceView,
        now: Timestamp,
        oui_db: TextMapView,
        rules: RuleDbView,
    ) -> DeviceView {
        let list = with_known(self.devices, d);
        let known = list[roster::ip_place(list, d.ip)];
        identity_rules::identity_rules_spec(
            with_pending(
                known,
                known,
                unexpired(self.pending_observations, now),
                self.vendors(oui_db),
            ),
            rules,
        )
    }

    /// The state after a scan saw a device.
    pub open spec fn seen(
        self,
        d: DeviceView,
        now: Timestamp,
        oui_db: TextMapView,
        rules: RuleDbView,
    ) -> PassiveInterfaceStateView {
        let list = with_known(self.devices, d);
        PassiveInterfaceStateView {
            devices: list.update(
                roster::ip_place(list, d.ip),
                self.seen_device(d, now, oui_db, rules),
            ),
            pending_observations: unexpired(self.pending_observations, now),
            ..self
        }
    }
}

/// The devices with one at an address.
pub open spec fn with_entry(
    list: Seq<DeviceView>,
    ip: IpAddr,
    received_at: Timestamp,
    interface: Seq<char>,
) -> Seq<DeviceView> {
    if roster::ip_place(list, ip) < list.len() {
        list
    } else {
        sort::insert_spec::<Device, DeviceByAddress>(list, roster::fresh_device(ip, received_at, interface))
    }
}

/// The devices after an advertisement was added to those at several addresses.
pub open spec fn advertised_devices(
    list: Seq<DeviceView>,
    ips: Seq<IpAddr>,
    o: PassiveObservationView,
    interface: Seq<char>,
    oui_db: Option<TextMapView>,
    rules: RuleDbView,
) -> Seq<DeviceView>
    decreases ips.len(),
{
    if ips.len() == 0 {
        list
    } else {
        let before = with_entry(
            advertised_devices(list, ips.drop_last(), o, interface, oui_db, rules),
            ips.last(),
            o.received_at,
            interface,
        );
        let k = roster::ip_place(before, ips.last());
        before.update(k, advertised_device(before[k], o, oui_db, rules))
    }
}

/// A device after an advertisement.
pub open spec fn advertised_device(
    d: DeviceView,
    o: PassiveObservationView,
    oui_db: Option<TextMapView>,
    rules: RuleDbView,
) -> DeviceView {
    identity_rules::identity_rules_spec(
        o.applied_to(DeviceView { last_seen: o.received_at, ..d }, oui_db),
        rules,
    )
}

/// The updates that come of an advertisement: one for each device that it changes.
pub open spec fn advertised_events(
    list: Seq<DeviceView>,
    ips: Seq<IpAddr>,
    o: PassiveObservationView,
    interface: Seq<char>,
    oui_db: Option<TextMapView>,
    rules: RuleDbView,
) -> Seq<ScanEventView>
    decreases ips.len(),
{
    if ips.len() == 0 {
        seq![]
    } else {
        let events = advertised_events(list, ips.drop_last(), o, interface, oui_db, rules);
        let before = with_entry(
            advertised_devices(list, ips.drop_last(), o, interface, oui_db, rules),
            ips.last(),
            o.received_at,
            interface,
        );
        let d = before[roster::ip_place(before, ips.last())];
        let after = advertised_device(d, o, oui_db, rules);
        if after != d {
            events.push(ScanEventView::DeviceUpdated(after))
        } else {
            events
        }
    }
}

/// Finds the advertisement with a key.
fn find_observation(all: &Vec<PassiveObservation>, key: &str) -> (r: usize)
    ensures
        r == observation_place(all.deep_view(), key@),
        r <= all@.len(),
{
    let ghost views = all.deep_view();
    let mut i: usize = 0;
    proof {
        assert(views.skip(0) =~= views);
    }
    while i < all.len()
        invariant
            i <= all@.len(),
            views == all.deep_view(),
            observation_place(views, key@) == i + observation_place(views.skip(i as int), key@),
        decreases all@.len() - i,
    {
        proof {
            assert(views.skip(i as int)[0] == all@[i as int]@);
            assert(views.skip(i as int).drop_first() =~= views.skip(i + 1));
        }
        if str_eq(all[i].key.as_str(), key) {
            return i;
        }
        i = i + 1;
    }
    i
}

/// Unites a device with a later record of it.
pub fn merge_device_snapshot(device: &mut Device, other: &Device)
    ensures
        final(device)@ == snapshot_merged(old(device)@, other@),
        final(device)@.ip == old(device)@.ip,
{
    if device.interface.is_none() {
        device.interface = other.interface.clone();
    }
    if device.hostname.is_none() {
        device.hostname = other.hostname.clone();
    }
    proof {
        apply::law_merge_keeps_all(device@, other@);
    }
    merge_device(device, other);
}

/// Adds a device that a scan saw.
fn merge_known_device(list: &mut Vec<Device>, incoming: &Device) -> (r: usize)
    requires
        roster::by_address(old(list).deep_view()),
    ensures
        final(list).deep_view() == with_known(old(list).deep_view(), incoming@),
        roster::by_address(final(list).deep_view()),
        r == roster::ip_place(final(list).deep_view(), incoming@.ip),
        r < final(list)@.len(),
{
    let ghost before = list.deep_view();
    let k: usize = find_ip(list, incoming.ip);
    proof {
        roster::lemma_ip_place(before, incoming.ip);
    }
    if k < list.len() {
        let device = if known_mac_conflict(&list[k], incoming) {
            incoming.clone()
        } else {
            let mut device = list[k].clone();
            merge_device_snapshot(&mut device, incoming);
            device
        };
        let ghost view = device@;
        list.set(k, device);
        proof {
            assert(list.deep_view() =~= before.update(k as int, view));
            roster::lemma_update_by_address(before, k as int, view);
            crate::scanner::roster::lemma_place_is(list.deep_view(), incoming.ip, k as int);
        }
    } else {
        proof {
            roster::lemma_insert_by_address(before, incoming@);
        }
        insert::<Device, DeviceByAddress>(list, incoming.clone());
    }
    find_ip(list, incoming.ip)
}

impl PassiveInterfaceState {
    /// Forgets the advertisements that no longer hold.
    fn prune_expired_observations(&mut self, now: Timestamp)
        ensures
            final(self)@ == (PassiveInterfaceStateView {
                pending_observations: unexpired(old(self)@.pending_observations, now),
                ..old(self)@
            }),
    {
        let ghost views = self.pending_observations.deep_view();
        let mut kept: Vec<PassiveObservation> = Vec::new();
        let mut i: usize = 0;
        proof {
            assert(kept.deep_view() =~= seq![]);
        }
        while i < self.pending_observations.len()
            invariant
                i <= self.pending_observations@.len(),
                self@ == old(self)@,
                views == self.pending_observations.deep_view(),
                kept.deep_view() == unexpired(views.take(i as int), now),
            decreases self.pending_observations@.len() - i,
        {
            proof {
                assert(views.take(i + 1).drop_last() =~= views.take(i as int));
                assert(views.take(i + 1).last() == self.pending_observations@[i as int]@);
            }
            if !self.pending_observations[i].is_expired(now) {
                let ghost before = kept.deep_view();
                kept.push(self.pending_observations[i].clone());
                proof {
                    assert(kept.deep_view() =~= before.push(views[i as int]));
                }
            }
            i = i + 1;
        }
        proof {
            assert(views.take(i as int) =~= views);
        }
        self.pending_observations = kept;
    }

    /// Adds the advertisements that are about a device.
    fn apply_pending_passive(&self, device: &mut Device, oui_db: &TextMap, rules: &RuleDb)
        ensures
            final(device)@ == identity_rules::identity_rules_spec(
                with_pending(
                    old(device)@,
                    old(device)@,
                    self@.pending_observations,
                    self@.vendors(oui_db@),
                ),
                rules@,
            ),
            old(device)@.extended_by(final(device)@),
    {
        broadcast use {crate::model::lemma_extended_refl, crate::model::lemma_extended_trans};

        let vendors: Option<&TextMap> = if self.oui {
            Some(oui_db)
        } else {
            None
        };
        let first = device.clone();
        let ghost views = self.pending_observations.deep_view();
        let mut i: usize = 0;
        while i < self.pending_observations.len()
            invariant
                i <= self.pending_observations@.len(),
                views == self.pending_observations.deep_view(),
                first@ == old(device)@,
                apply::opt_map(vendors) == self@.vendors(oui_db@),
                old(device)@.extended_by(device@),
                device@ == with_pending(
                    old(device)@,
                    old(device)@,
                    views.take(i as int),
                    self@.vendors(oui_db@),
                ),
            decreases self.pending_observations@.len() - i,
        {
            broadcast use crate::model::lemma_extended_trans;

            proof {
                assert(views.take(i + 1).drop_last() =~= views.take(i as int));
                assert(views.take(i + 1).last() == self.pending_observations@[i as int]@);
            }
            if self.pending_observations[i].matches_device(&first) {
                self.pending_observations[i].apply_to_device(device, vendors);
            }
            i = i + 1;
        }
        proof {
            assert(views.take(i as int) =~= views);
        }
        apply_identity_rules(device, rules);
    }

    /// Takes in a device that a scan saw, and gives back what is known of it.
    pub fn observe(
        &mut self,
        device: &Device,
        now: Timestamp,
        oui_db: &TextMap,
        rules: &RuleDb,
    ) -> (r: Device)
        requires
            old(self)@.valid(),
        ensures
            r@ == old(self)@.seen_device(device@, now, oui_db@, rules@),
            final(self)@ == old(self)@.seen(device@, now, oui_db@, rules@),
            final(self)@.valid(),
    {
        self.prune_expired_observations(now);
        let k: usize = merge_known_device(&mut self.devices, device);
        let ghost list = self.devices.deep_view();
        let mut merged = self.devices[k].clone();
        self.apply_pending_passive(&mut merged, oui_db, rules);
        let r = merged.clone();
        proof {
            reveal(DeviceView::extended_by);
            roster::lemma_ip_place(list, device.ip);
            roster::lemma_update_by_address(list, k as int, merged@);
        }
        let ghost view = merged@;
        self.devices.set(k, merged);
        proof {
            assert(self.devices.deep_view() =~= list.update(k as int, view));
        }
        r
    }

    /// Puts a device at an address, and gives back its place.
    fn entry(&mut self, ip: IpAddr, received_at: Timestamp, interface: &str) -> (r: usize)
        requires
            old(self)@.valid(),
        ensures
            final(self)@ == (PassiveInterfaceStateView {
                devices: with_entry(old(self)@.devices, ip, received_at, interface@),
                ..old(self)@
            }),
            final(self)@.valid(),
            r == roster::ip_place(final(self)@.devices, ip),
            r < final(self).devices@.len(),
    {
        let k: usize = find_ip(&self.devices, ip);
        if k < self.devices.len() {
            return k;
        }
        let mut device = Device::new(ip, received_at);
        device.interface = Some(owned(interface));
        proof {
            assert(device@ == roster::fresh_device(ip, received_at, interface@));
            roster::lemma_insert_by_address(self.devices.deep_view(), device@);
        }
        insert::<Device, DeviceByAddress>(&mut self.devices, device);
        find_ip(&self.devices, ip)
    }

    /// Takes in an advertisement, and gives back the devices that it changes.
    pub fn advertise(
        &mut self,
        interface: &str,
        observation: &PassiveObservation,
        now: Timestamp,
        oui_db: &TextMap,
        rules: &RuleDb,
    ) -> (r: Vec<ScanEvent>)
        requires
            old(self)@.valid(),
        ensures
            (final(self)@, r.deep_view()) == old(self)@.advertised(
                interface@,
                observation@,
                now,
                oui_db@,
                rules@,
            ),
            final(self)@.valid(),
    {
        let mut events: Vec<ScanEvent> = Vec::new();
        proof {
            assert(events.deep_view() =~= seq![]);
        }
        self.prune_expired_observations(now);
        if observation.is_expired(now) {
            return events;
        }
        let ghost pending = self.pending_observations.deep_view();
        let k: usize = find_observation(&self.pending_observations, observation.key.as_str());
        if k < self.pending_observations.len() {
            self.pending_observations.set(k, observation.clone());
            proof {
                assert(self.pending_observations.deep_view() =~= pending.update(
                    k as int,
                    observation@,
                ));
            }
        } else {
            insert::<PassiveObservation, ObservationByKey>(
                &mut self.pending_observations,
                observation.clone(),
            );
        }
        let vendors: Option<&TextMap> = if self.oui {
            Some(oui_db)
        } else {
            None
        };
        let ips = observation.target_ips(&self.devices, &self.targets);
        let ghost start = self@;
        let mut i: usize = 0;
        while i < ips.len()
            invariant
                i <= ips@.len(),
                self@.valid(),
                apply::opt_map(vendors) == start.vendors(oui_db@),
                self@ == (PassiveInterfaceStateView { devices: self@.devices, ..start }),
                self@.devices == advertised_devices(
                    start.devices,
                    ips@.take(i as int),
                    observation@,
                    interface@,
                    start.vendors(oui_db@),
                    rules@,
                ),
                events.deep_view() == advertised_events(
                    start.devices,
                    ips@.take(i as int),
                    observation@,
                    interface@,
                    start.vendors(oui_db@),
                    rules@,
                ),
            decreases ips@.len() - i,
        {
            broadcast use crate::model::lemma_extended_trans;

            proof {
                assert(ips@.take(i + 1).drop_last() =~= ips@.take(i as int));
            }
            let ip = ips[i];
            let k: usize = self.entry(ip, observation.received_at, interface);
            let ghost list = self.devices.deep_view();
            let mut device = self.devices[k].clone();
            let ghost first = device@;
            device.last_seen = observation.received_at;
            let ghost marked = device@;
            observation.apply_to_device(&mut device, vendors);
            apply_identity_rules(&mut device, rules);
            proof {
                assert(marked.extended_by(device@));
                assert(device@.ip == first.ip) by {
                    reveal(DeviceView::extended_by);
                }
                roster::lemma_ip_place(list, ip);
                roster::lemma_update_by_address(list, k as int, device@);
            }
            if !device.same(&self.devices[k]) {
                let ghost before = events.deep_view();
                let event = ScanEvent::DeviceUpdated(Box::new(device.clone()));
                events.push(event);
                proof {
                    assert(events.deep_view() =~= before.push(
                        ScanEventView::DeviceUpdated(device@),
                    ));
                }
            }
            let ghost view = device@;
            self.devices.set(k, device);
            proof {
                assert(self.devices.deep_view() =~= list.update(k as int, view));
            }
            i = i + 1;
        }
        proof {
            assert(ips@.take(i as int) =~= ips@);
        }
        events
    }
}

impl PassiveInterfaceStateView {
    /// The state after an advertisement, and the devices that it changes. One that no
    /// longer holds changes nothing.
    pub open spec fn advertised(
        self,
        interface: Seq<char>,
        o: PassiveObservationView,
        now: Timestamp,
        oui_db: TextMapView,
        rules: RuleDbView,
    ) -> (PassiveInterfaceStateView, Seq<ScanEventView>) {
        let pending = unexpired(self.pending_observations, now);
        if o.expired(now) {
            (PassiveInterfaceStateView { pending_observations: pending, ..self }, seq![])
        } else {
            let ips = o.target_ips(self.devices, self.targets);
            (
                PassiveInterfaceStateView {
                    pending_observations: with_observation(pending, o),
                    devices: advertised_devices(
                        self.devices,
                        ips,
                        o,
                        interface,
                        self.vendors(oui_db),
                        rules,
                    ),
                    ..self
                },
                advertised_events(self.devices, ips, o, interface, self.vendors(oui_db), rules),
            )
        }
    }
}

/// What a listener reports.
pub enum ContinuousPassiveUpdate {
    /// An advertisement on an interface.
    Observation { interface: String, observation: Box<PassiveObservation> },
    /// Something did not work.
    Warning(String),
}

/// The state of passive discovery across the rounds of a continuous scan.
pub struct ContinuousPassiveManager {
    pub states: Vec<PassiveInterfaceState>,
    pub rules: RuleDb,
    pub oui_db: TextMap,
}

/// The mathematical content of a [`ContinuousPassiveManager`].
#[verifier::ext_equal]
pub struct ContinuousPassiveManagerView {
    pub states: Seq<PassiveInterfaceStateView>,
    pub rules: RuleDbView,
    pub oui_db: TextMapView,
}

impl View for ContinuousPassiveManager {
    type V = ContinuousPassiveManagerView;

    open spec fn view(&self) -> ContinuousPassiveManagerView {
        ContinuousPassiveManagerView {
            states: self.states.deep_view(),
            rules: self.rules@,
            oui_db: self.oui_db@,
        }
    }
}

/// The position of the state of an interface, or the length when there is none.
pub open spec fn state_place(all: Seq<PassiveInterfaceStateView>, interface: Seq<char>) -> int
    decreases all.len(),
{
    if all.len() == 0 || all[0].interface == interface {
        0
    } else {
        1 + state_place(all.drop_first(), interface)
    }
}

/// Finds the state of an interface.
fn find_state(all: &Vec<PassiveInterfaceState>, interface: &str) -> (r: usize)
    ensures
        r == state_place(all.deep_view(), interface@),
        r <= all@.len(),
{
    let ghost views = all.deep_view();
    let mut i: usize = 0;
    proof {
        assert(views.skip(0) =~= views);
    }
    while i < all.len()
        invariant
            i <= all@.len(),
            views == all.deep_view(),
            state_place(views, interface@) == i + state_place(views.skip(i as int), interface@),
        decreases all@.len() - i,
    {
        proof {
            assert(views.skip(i as int)[0] == all@[i as int]@);
            assert(views.skip(i as int).drop_first() =~= views.skip(i + 1));
        }
        if str_eq(all[i].interface.as_str(), interface) {
            return i;
        }
        i = i + 1;
    }
    i
}

impl ContinuousPassiveManagerView {
    /// Every state is valid.
    pub open spec fn valid(self) -> bool {
        forall|i: int| 0 <= i < self.states.len() ==> (#[trigger] self.states[i]).valid()
    }

    /// The position of the state that a device belongs to, or the length when it
    /// belongs to none.
    pub open spec fn place_of(self, d: DeviceView) -> int {
        match d.interface {
            Some(interface) => state_place(self.states, interface),
            None => self.states.len() as int,
        }
    }

    /// What is known of a device that a scan saw.
    pub open spec fn known(self, d: DeviceView, now: Timestamp) -> DeviceView {
        let k = self.place_of(d);
        if k < self.states.len() {
            self.states[k].seen_device(d, now, self.oui_db, self.rules)
        } else {
            d
        }
    }

    /// The manager after a scan saw a device.
    pub open spec fn after_device(self, d: DeviceView, now: Timestamp) -> Self {
        let k = self.place_of(d);
        if k < self.states.len() {
            ContinuousPassiveManagerView {
                states: self.states.update(
                    k,
                    self.states[k].seen(d, now, self.oui_db, self.rules),
                ),
                ..self
            }
        } else {
            self
        }
    }

    /// The manager after a scan saw several devices.
    pub open spec fn after_devices(self, all: Seq<DeviceView>, now: Timestamp) -> Self
        decreases all.len(),
    {
        if all.len() == 0 {
            self
        } else {
            self.after_devices(all.drop_last(), now).after_device(all.last(), now)
        }
    }

    /// What is known of several devices that a scan saw one after the other.
    pub open spec fn known_devices(self, all: Seq<DeviceView>, now: Timestamp) -> Seq<DeviceView>
        decreases all.len(),
    {
        if all.len() == 0 {
            seq![]
        } else {
            self.known_devices(all.drop_last(), now).push(
                self.after_devices(all.drop_last(), now).known(all.last(), now),
            )
        }
    }

    /// An event with what is known of its devices, and the manager after it.
    pub open spec fn observed(self, event: ScanEventView, now: Timestamp) -> (
        ScanEventView,
        ContinuousPassiveManagerView,
    ) {
        match event {
            ScanEventView::DeviceUpdated(d) => (
                ScanEventView::DeviceUpdated(self.known(d, now)),
                self.after_device(d, now),
            ),
            ScanEventView::Finished { devices, warnings } => (
                ScanEventView::Finished { devices: self.known_devices(devices, now), warnings },
                self.after_devices(devices, now),
            ),
            other => (other, self),
        }
    }

    /// The manager after an advertisement on an interface, and the devices that it
    /// changes.
    pub open spec fn advertised(
        self,
        interface: Seq<char>,
        o: PassiveObservationView,
        now: Timestamp,
    ) -> (ContinuousPassiveManagerView, Seq<ScanEventView>) {
        let k = state_place(self.states, interface);
        if k < self.states.len() {
            let (state, events) = self.states[k].advertised(
                interface,
                o,
                now,
                self.oui_db,
                self.rules,
            );
            (
                ContinuousPassiveManagerView { states: self.states.update(k, state), ..self },
                events,
            )
        } else {
            (self, seq![])
        }
    }
}

impl ContinuousPassiveManager {
    /// Adds what is known to a device that a scan saw.
    pub fn observe_device(&mut self, device: &mut Device, now: Timestamp)
        requires
            old(self)@.valid(),
        ensures
            final(device)@ == old(self)@.known(old(device)@, now),
            final(self)@ == old(self)@.after_device(old(device)@, now),
            final(self)@.valid(),
    {
        let k: usize = match &device.interface {
            Some(interface) => find_state(&self.states, interface.as_str()),
            None => self.states.len(),
        };
        if k < self.states.len() {
            let ghost before = self.states.deep_view();
            proof {
                assert(before[k as int] == self.states@[k as int]@);
            }
            let mut state = self.states[k].clone();
            let known = state.observe(device, now, &self.oui_db, &self.rules);
            let ghost view = state@;
            self.states.set(k, state);
            proof {
                assert(self.states.deep_view() =~= before.update(k as int, view));
            }
            *device = known;
        }
    }

    /// Adds what is known to the devices of an event.
    pub fn observe_scan_event(&mut self, event: ScanEvent, now: Timestamp) -> (r: ScanEvent)
        requires
            old(self)@.valid(),
        ensures
            (r@, final(self)@) == old(self)@.observed(event@, now),
            final(self)@.valid(),
    {
        match event {
            ScanEvent::DeviceUpdated(device) => {
                let mut device = *device;
                self.observe_device(&mut device, now);
                ScanEvent::DeviceUpdated(Box::new(device))
            },
            ScanEvent::Finished { devices, warnings } => {
                let ghost views = devices.deep_view();
                let ghost start = self@;
                let mut out: Vec<Device> = Vec::new();
                let mut i: usize = 0;
                proof {
                    assert(out.deep_view() =~= seq![]);
                }
                while i < devices.len()
                    invariant
                        i <= devices@.len(),
                        views == devices.deep_view(),
                        self@.valid(),
                        self@ == start.after_devices(views.take(i as int), now),
                        out.deep_view() == start.known_devices(views.take(i as int), now),
                    decreases devices@.len() - i,
                {
                    proof {
                        assert(views.take(i + 1).drop_last() =~= views.take(i as int));
                        assert(views.take(i + 1).last() == devices@[i as int]@);
                    }
                    let ghost before = out.deep_view();
                    let mut device = devices[i].clone();
                    self.observe_device(&mut device, now);
                    let ghost view = device@;
                    out.push(device);
                    proof {
                        assert(out.deep_view() =~= before.push(view));
                    }
                    i = i + 1;
                }
                proof {
                    assert(views.take(i as int) =~= views);
                }
                ScanEvent::Finished { devices: out, warnings }
            },
            other => other,
        }
    }

    /// Takes in an advertisement on an interface.
    pub fn apply_observation(
        &mut self,
        interface: &str,
        observation: &PassiveObservation,
        now: Timestamp,
    ) -> (r: Vec<ScanEvent>)
        requires
            old(self)@.valid(),
        ensures
            (final(self)@, r.deep_view()) == old(self)@.advertised(
                interface@,
                observation@,
                now,
            ),
            final(self)@.valid(),
    {
        let k: usize = find_state(&self.states, interface);
        if k >= self.states.len() {
            let events: Vec<ScanEvent> = Vec::new();
            proof {
                assert(events.deep_view() =~= seq![]);
            }
            return events;
        }
        let ghost before = self.states.deep_view();
        proof {
            assert(before[k as int] == self.states@[k as int]@);
            assert(self@.states[k as int].valid());
        }
        let mut state = self.states[k].clone();
        let events = state.advertise(interface, observation, now, &self.oui_db, &self.rules);
        let ghost view = state@;
        self.states.set(k, state);
        proof {
            assert(self.states.deep_view() =~= before.update(k as int, view));
        }
        events
    }

    /// Takes in what a listener reports.
    pub fn apply_passive_update(&mut self, update: ContinuousPassiveUpdate, now: Timestamp) -> (r:
        Vec<ScanEvent>)
        requires
            old(self)@.valid(),
        ensures
            match update {
                ContinuousPassiveUpdate::Observation { interface, observation } => (
                    final(self)@,
                    r.deep_view(),
                ) == old(self)@.advertised(interface@, (*observation)@, now),
                ContinuousPassiveUpdate::Warning(warning) => final(self)@ == old(self)@
                    && r.deep_view() == seq![ScanEventView::Warning(warning@)],
            },
            final(self)@.valid(),
    {
        match update {
            ContinuousPassiveUpdate::Observation { interface, observation } => {
                self.apply_observation(interface.as_str(), &observation, now)
            },
            ContinuousPassiveUpdate::Warning(warning) => {
                let mut events: Vec<ScanEvent> = Vec::new();
                let ghost w = warning@;
                events.push(ScanEvent::Warning(warning));
                proof {
                    assert(events.deep_view() =~= seq![ScanEventView::Warning(w)]);
                }
                events
            },
        }
    }
}

/// Adding an address in its place adds that one alone.
proof fn lemma_with_ip(ips: Seq<IpAddr>, ip: IpAddr, x: IpAddr)
    requires
        with_ip(ips, ip).contains(x),
    ensures
        ips.contains(x) || x == ip,
{
    if !ips.contains(ip) {
        sort::lemma_insert_members::<IpAddr, AddressOrder>(ips, ip, x);
    }
}

/// Candidates are added where they lie in the network.
proof fn lemma_with_candidates(
    ips: Seq<IpAddr>,
    target: Ipv4Net,
    candidates: Seq<IpAddr>,
    x: IpAddr,
)
    requires
        with_candidates(ips, target, candidates).contains(x),
    ensures
        ips.contains(x) || phases::in_target(target, x),
    decreases candidates.len(),
{
    if candidates.len() > 0 {
        let before = with_candidates(ips, target, candidates.drop_last());
        if phases::in_target(target, candidates.last()) {
            lemma_with_ip(before, candidates.last(), x);
        }
        if before.contains(x) {
            lemma_with_candidates(ips, target, candidates.drop_last(), x);
        }
    }
}

/// Candidates are added where they lie in one of the networks.
proof fn lemma_with_targets(
    ips: Seq<IpAddr>,
    targets: Seq<Ipv4Net>,
    candidates: Seq<IpAddr>,
    x: IpAddr,
)
    requires
        with_targets(ips, targets, candidates).contains(x),
    ensures
        ips.contains(x) || exists|k: int|
            0 <= k < targets.len() && phases::in_target(#[trigger] targets[k], x),
    decreases targets.len(),
{
    if targets.len() > 0 {
        let front = targets.drop_last();
        let before = with_targets(ips, front, candidates);
        lemma_with_candidates(before, targets.last(), candidates, x);
        if before.contains(x) {
            lemma_with_targets(ips, front, candidates, x);
            if !ips.contains(x) {
                let k = choose|k: int|
                    0 <= k < front.len() && phases::in_target(#[trigger] front[k], x);
                assert(targets[k] == front[k]);
            }
        } else {
            assert(phases::in_target(targets[targets.len() - 1], x));
        }
    }
}

/// The addresses of known devices are added for MAC addresses.
proof fn lemma_with_macs(
    ips: Seq<IpAddr>,
    macs: Seq<Seq<char>>,
    devices: Seq<DeviceView>,
    x: IpAddr,
)
    requires
        with_macs(ips, macs, devices).contains(x),
    ensures
        ips.contains(x) || exists|k: int| 0 <= k < devices.len() && (#[trigger] devices[k]).ip == x,
    decreases macs.len(),
{
    if macs.len() > 0 {
        let before = with_macs(ips, macs.drop_last(), devices);
        lemma_mac_place(devices, macs.last());
        let k = mac_place(devices, macs.last());
        if k < devices.len() {
            lemma_with_ip(before, devices[k].ip, x);
            if x == devices[k].ip {
                assert(devices[k].ip == x);
            }
        }
        if before.contains(x) {
            lemma_with_macs(ips, macs.drop_last(), devices, x);
        }
    }
}

/// The place of a MAC address is a position of the list or its end.
proof fn lemma_mac_place(devices: Seq<DeviceView>, mac: Seq<char>)
    ensures
        0 <= mac_place(devices, mac) <= devices.len(),
    decreases devices.len(),
{
    if devices.len() > 0 && !has_mac(devices[0], mac) {
        lemma_mac_place(devices.drop_first(), mac);
    }
}

/// An advertisement is about hosts of the target networks and about known devices,
/// and about nothing else.
pub proof fn law_advertisement_stays_in_place(
    o: PassiveObservationView,
    devices: Seq<DeviceView>,
    targets: Seq<Ipv4Net>,
    ip: IpAddr,
)
    requires
        o.target_ips(devices, targets).contains(ip),
    ensures
        (exists|k: int| 0 <= k < targets.len() && phases::in_target(#[trigger] targets[k], ip))
            || (exists|k: int| 0 <= k < devices.len() && (#[trigger] devices[k]).ip == ip),
{
    let named = with_targets(seq![], targets, o.candidate_ips);
    lemma_with_macs(named, o.candidate_macs, devices, ip);
    if named.contains(ip) {
        lemma_with_targets(seq![], targets, o.candidate_ips, ip);
    }
}

/// After a device was observed, no advertisement that has expired is left on its
/// interface, and what is known of the device does not depend on any that had.
pub proof fn law_expired_advertisements_are_forgotten(
    state: PassiveInterfaceStateView,
    d: DeviceView,
    now: Timestamp,
    oui_db: TextMapView,
    rules: RuleDbView,
)
    ensures
        forall|i: int|
            0 <= i < state.seen(d, now, oui_db, rules).pending_observations.len()
                ==> !(#[trigger] state.seen(d, now, oui_db, rules).pending_observations[i]).expired(
                now,
            ),
        state.seen_device(d, now, oui_db, rules) == (PassiveInterfaceStateView {
            pending_observations: unexpired(state.pending_observations, now),
            ..state
        }).seen_device(d, now, oui_db, rules),
{
    lemma_unexpired(state.pending_observations, now);
    lemma_unexpired_twice(state.pending_observations, now);
}

/// Pruning leaves only advertisements that hold.
proof fn lemma_unexpired(all: Seq<PassiveObservationView>, now: Timestamp)
    ensures
        forall|i: int| 0 <= i < unexpired(all, now).len() ==> !(#[trigger] unexpired(all, now)[i]).expired(now),
    decreases all.len(),
{
    if all.len() > 0 {
        lemma_unexpired(all.drop_last(), now);
        let before = unexpired(all.drop_last(), now);
        let after = unexpired(all, now);
        assert forall|i: int| 0 <= i < after.len() implies !(#[trigger] after[i]).expired(now) by {
            if i < before.len() {
                assert(after[i] == before[i]);
            }
        }
    }
}

/// Pruning a second time changes nothing.
proof fn lemma_unexpired_twice(all: Seq<PassiveObservationView>, now: Timestamp)
    ensures
        unexpired(unexpired(all, now), now) == unexpired(all, now),
    decreases all.len(),
{
    if all.len() > 0 {
        lemma_unexpired_twice(all.drop_last(), now);
        let before = unexpired(all.drop_last(), now);
        if !all.last().expired(now) {
            assert(before.push(all.last()).drop_last() =~= before);
        }
    }
}

/// An advertisement that has expired changes no device and is reported to nobody.
pub proof fn law_expired_advertisement_changes_no_device(
    state: PassiveInterfaceStateView,
    interface: Seq<char>,
    o: PassiveObservationView,
    now: Timestamp,
    oui_db: TextMapView,
    rules: RuleDbView,
)
    requires
        o.expired(now),
    ensures
        state.advertised(interface, o, now, oui_db, rules).0.devices == state.devices,
        state.advertised(interface, o, now, oui_db, rules).1 == Seq::<ScanEventView>::empty(),
{
}

/// A device with another MAC address takes the place of the one that had its address:
/// nothing of the old one is kept.
pub proof fn law_changed_mac_replaces_device(list: Seq<DeviceView>, d: DeviceView)
    requires
        roster::by_address(list),
        roster::ip_place(list, d.ip) < list.len(),
        store::mac_conflict(list[roster::ip_place(list, d.ip)], d),
    ensures
        with_known(list, d)[roster::ip_place(list, d.ip)] == d,
{
    roster::lemma_ip_place(list, d.ip);
}

/// An interface that is listened on across rounds, with the target networks of every
/// configuration for it.
#[derive(Debug, PartialEq, Eq)]
pub struct ContinuousPassiveInterface {
    pub iface: InterfaceInfo,
    pub targets: Vec<Ipv4Net>,
    pub oui: bool,
    pub lldp: bool,
    pub cdp: bool,
}

/// The mathematical content of a [`ContinuousPassiveInterface`].
#[verifier::ext_equal]
pub struct ContinuousPassiveInterfaceView {
    pub iface: InterfaceInfoView,
    pub targets: Seq<Ipv4Net>,
    pub oui: bool,
    pub lldp: bool,
    pub cdp: bool,
}

impl View for ContinuousPassiveInterface {
    type V = ContinuousPassiveInterfaceView;

    open spec fn view(&self) -> ContinuousPassiveInterfaceView {
        ContinuousPassiveInterfaceView {
            iface: self.iface@,
            targets: self.targets@,
            oui: self.oui,
            lldp: self.lldp,
            cdp: self.cdp,
        }
    }
}

impl DeepView for ContinuousPassiveInterface {
    type V = ContinuousPassiveInterfaceView;

    open spec fn deep_view(&self) -> ContinuousPassiveInterfaceView {
        self@
    }
}

impl Clone for ContinuousPassiveInterface {
    fn clone(&self) -> (r: Self)
        ensures
            r@ == self@,
    {
        let r = ContinuousPassiveInterface {
            iface: self.iface.clone(),
            targets: self.targets.clone(),
            oui: self.oui,
            lldp: self.lldp,
            cdp: self.cdp,
        };
        proof {
            assert(r.targets@ =~= self.targets@);
        }
        r
    }
}

/// The position of an interface, or the length when it is not there.
pub open spec fn interface_place(all: Seq<ContinuousPassiveInterfaceView>, name: Seq<char>) -> int
    decreases all.len(),
{
    if all.len() == 0 || all[0].iface.name == name {
        0
    } else {
        1 + interface_place(all.drop_first(), name)
    }
}

/// Interfaces by name.
pub struct PassiveInterfaceOrder {}

impl SortOrder<ContinuousPassiveInterface> for PassiveInterfaceOrder {
    open spec fn before(
        a: ContinuousPassiveInterfaceView,
        b: ContinuousPassiveInterfaceView,
    ) -> bool {
        text::less_spec(a.iface.name, b.iface.name)
    }

    fn comes_before(a: &ContinuousPassiveInterface, b: &ContinuousPassiveInterface) -> (r: bool) {
        less(chars(a.iface.name.as_str()).as_slice(), chars(b.iface.name.as_str()).as_slice())
    }

    proof fn asymmetric(a: ContinuousPassiveInterfaceView, b: ContinuousPassiveInterfaceView) {
        text::lemma_less_total(a.iface.name, b.iface.name);
    }

    proof fn transitive(
        a: ContinuousPassiveInterfaceView,
        b: ContinuousPassiveInterfaceView,
        c: ContinuousPassiveInterfaceView,
    ) {
        text::lemma_less_total(a.iface.name, b.iface.name);
        text::lemma_less_total(b.iface.name, c.iface.name);
        text::lemma_less_total(a.iface.name, c.iface.name);
        if a.iface.name != b.iface.name && b.iface.name != c.iface.name {
            text::lemma_less_transitive(a.iface.name, b.iface.name, c.iface.name);
        }
    }
}

/// The target network of a configuration on an interface.
pub open spec fn config_target(config: ScanConfigView, iface: InterfaceInfoView) -> Result<
    Ipv4Net,
    Seq<char>,
> {
    match config.target {
        Some(value) => match net::target_spec(value) {
            Some(net) => Ok(net),
            None => Err(net::target_error(value)),
        },
        None => Ok(iface.network),
    }
}

/// The entry of an interface with one more configuration.
pub open spec fn with_config(
    entry: ContinuousPassiveInterfaceView,
    target: Ipv4Net,
    config: ScanConfigView,
) -> ContinuousPassiveInterfaceView {
    ContinuousPassiveInterfaceView {
        targets: if entry.targets.contains(target) {
            entry.targets
        } else {
            entry.targets.push(target)
        },
        oui: entry.oui || config.oui,
        lldp: entry.lldp || config.lldp,
        cdp: entry.cdp || config.cdp,
        ..entry
    }
}

/// The interfaces with one more configuration.
pub open spec fn with_interface(
    all: Seq<ContinuousPassiveInterfaceView>,
    iface: InterfaceInfoView,
    target: Ipv4Net,
    config: ScanConfigView,
) -> Seq<ContinuousPassiveInterfaceView> {
    let k = interface_place(all, iface.name);
    if k < all.len() {
        all.update(k, with_config(all[k], target, config))
    } else {
        sort::insert_spec::<ContinuousPassiveInterface, PassiveInterfaceOrder>(
            all,
            with_config(
                ContinuousPassiveInterfaceView {
                    iface,
                    targets: seq![],
                    oui: false,
                    lldp: false,
                    cdp: false,
                },
                target,
                config,
            ),
        )
    }
}

/// The interfaces with one more configuration, where it listens and its interface and
/// target can be had.
#[verifier::opaque]
pub open spec fn with_listener(
    all: Seq<ContinuousPassiveInterfaceView>,
    config: ScanConfigView,
    interfaces: Seq<InterfaceInfoView>,
    default_name: Option<Seq<char>>,
) -> Result<Seq<ContinuousPassiveInterfaceView>, Seq<char>> {
    if !config.lldp && !config.cdp {
        Ok(all)
    } else {
        match net::selected(interfaces, config.iface, default_name) {
            Ok(iface) => match config_target(config, iface) {
                Ok(target) => Ok(with_interface(all, iface, target, config)),
                Err(e) => Err(e),
            },
            Err(e) => Err(e),
        }
    }
}

/// The interfaces that several configurations listen on, each once and by name, where
/// every interface and target that is needed can be had.
pub open spec fn passive_interfaces(
    configs: Seq<ScanConfigView>,
    interfaces: Seq<InterfaceInfoView>,
    default_name: Option<Seq<char>>,
) -> Result<Seq<ContinuousPassiveInterfaceView>, Seq<char>>
    decreases configs.len(),
{
    if configs.len() == 0 {
        Ok(seq![])
    } else {
        match passive_interfaces(configs.drop_last(), interfaces, default_name) {
            Ok(before) => with_listener(before, configs.last(), interfaces, default_name),
            Err(e) => Err(e),
        }
    }
}

/// The first error stands.
proof fn lemma_passive_error(
    configs: Seq<ScanConfigView>,
    interfaces: Seq<InterfaceInfoView>,
    default_name: Option<Seq<char>>,
    n: int,
)
    requires
        0 <= n <= configs.len(),
        passive_interfaces(configs.take(n), interfaces, default_name) is Err,
    ensures
        passive_interfaces(configs, interfaces, default_name) == passive_interfaces(
            configs.take(n),
            interfaces,
            default_name,
        ),
    decreases configs.len(),
{
    if n == configs.len() {
        assert(configs.take(n) =~= configs);
    } else {
        assert(configs.drop_last().take(n) =~= configs.take(n));
        lemma_passive_error(configs.drop_last(), interfaces, default_name, n);
    }
}

/// Finds an interface.
fn find_interface(all: &Vec<ContinuousPassiveInterface>, name: &str) -> (r: usize)
    ensures
        r == interface_place(all.deep_view(), name@),
        r <= all@.len(),
{
    let ghost views = all.deep_view();
    let mut i: usize = 0;
    proof {
        assert(views.skip(0) =~= views);
    }
    while i < all.len()
        invariant
            i <= all@.len(),
            views == all.deep_view(),
            interface_place(views, name@) == i + interface_place(views.skip(i as int), name@),
        decreases all@.len() - i,
    {
        proof {
            assert(views.skip(i as int)[0] == all@[i as int]@);
            assert(views.skip(i as int).drop_first() =~= views.skip(i + 1));
        }
        if str_eq(all[i].iface.name.as_str(), name) {
            return i;
        }
        i = i + 1;
    }
    i
}

/// Reports whether a network is in a list.
fn has_target(targets: &Vec<Ipv4Net>, target: Ipv4Net) -> (r: bool)
    ensures
        r == targets@.contains(target),
{
    let mut i: usize = 0;
    while i < targets.len()
        invariant
            i <= targets@.len(),
            forall|k: int| 0 <= k < i ==> targets@[k] != target,
        decreases targets@.len() - i,
    {
        if targets[i] == target {
            return true;
        }
        i = i + 1;
    }
    false
}

/// Adds a configuration to the entry of its interface.
fn add_config(entry: &mut ContinuousPassiveInterface, target: Ipv4Net, config: &ScanConfig)
    ensures
        final(entry)@ == with_config(old(entry)@, target, config@),
{
    if !has_target(&entry.targets, target) {
        entry.targets.push(target);
    }
    entry.oui = entry.oui || config.oui;
    entry.lldp = entry.lldp || config.lldp;
    entry.cdp = entry.cdp || config.cdp;
}

/// Adds a configuration.
fn add_interface(
    all: &mut Vec<ContinuousPassiveInterface>,
    iface: InterfaceInfo,
    target: Ipv4Net,
    config: &ScanConfig,
)
    ensures
        final(all).deep_view() == with_interface(old(all).deep_view(), iface@, target, config@),
{
    let ghost before = all.deep_view();
    let k: usize = find_interface(all, iface.name.as_str());
    if k < all.len() {
        let mut entry = all[k].clone();
        add_config(&mut entry, target, config);
        let ghost view = entry@;
        all.set(k, entry);
        proof {
            assert(all.deep_view() =~= before.update(k as int, view));
        }
    } else {
        let mut entry = ContinuousPassiveInterface {
            iface,
            targets: Vec::new(),
            oui: false,
            lldp: false,
            cdp: false,
        };
        proof {
            assert(entry@.targets =~= seq![]);
        }
        add_config(&mut entry, target, config);
        insert::<ContinuousPassiveInterface, PassiveInterfaceOrder>(all, entry);
    }
}

/// The text of an optional setting.
fn opt_text(s: &Option<String>) -> (r: Option<&str>)
    ensures
        net::opt_str(r) == s.deep_view(),
{
    match s {
        Some(s) => Some(s.as_str()),
        None => None,
    }
}

/// Adds a configuration that listens.
fn add_listener(
    all: &mut Vec<ContinuousPassiveInterface>,
    config: &ScanConfig,
    interfaces: &Vec<InterfaceInfo>,
    default_name: Option<&str>,
) -> (r: Result<(), String>)
    ensures
        match r {
            Ok(_) => with_listener(
                old(all).deep_view(),
                config@,
                interfaces.deep_view(),
                net::opt_str(default_name),
            ) == Ok::<Seq<ContinuousPassiveInterfaceView>, Seq<char>>(final(all).deep_view()),
            Err(e) => with_listener(
                old(all).deep_view(),
                config@,
                interfaces.deep_view(),
                net::opt_str(default_name),
            ) == Err::<Seq<ContinuousPassiveInterfaceView>, Seq<char>>(e@),
        },
{
    proof {
        reveal(with_listener);
    }
    if !config.lldp && !config.cdp {
        return Ok(());
    }
    let iface = match select_interface(interfaces, opt_text(&config.iface), default_name) {
        Ok(iface) => iface,
        Err(e) => {
            return Err(e);
        },
    };
    match parse_target(opt_text(&config.target), &iface) {
        Ok(target) => {
            add_interface(all, iface, target, config);
            Ok(())
        },
        Err(e) => Err(e),
    }
}

/// Lists the interfaces that several configurations listen on. A configuration whose
/// interface or target cannot be had is an error, and says which.
pub fn continuous_passive_interfaces(
    configs: &Vec<ScanConfig>,
    interfaces: &Vec<InterfaceInfo>,
    default_name: Option<&str>,
) -> (r: Result<Vec<ContinuousPassiveInterface>, String>)
    ensures
        match r {
            Ok(all) => passive_interfaces(
                configs.deep_view(),
                interfaces.deep_view(),
                net::opt_str(default_name),
            ) == Ok::<Seq<ContinuousPassiveInterfaceView>, Seq<char>>(all.deep_view()),
            Err(e) => passive_interfaces(
                configs.deep_view(),
                interfaces.deep_view(),
                net::opt_str(default_name),
            ) == Err::<Seq<ContinuousPassiveInterfaceView>, Seq<char>>(e@),
        },
{
    let ghost views = configs.deep_view();
    let ghost ifaces = interfaces.deep_view();
    let ghost name = net::opt_str(default_name);
    let mut all: Vec<ContinuousPassiveInterface> = Vec::new();
    let mut i: usize = 0;
    proof {
        assert(all.deep_view() =~= seq![]);
    }
    while i < configs.len()
        invariant
            i <= configs@.len(),
            views == configs.deep_view(),
            ifaces == interfaces.deep_view(),
            name == net::opt_str(default_name),
            passive_interfaces(views.take(i as int), ifaces, name) == Ok::<
                Seq<ContinuousPassiveInterfaceView>,
                Seq<char>,
            >(all.deep_view()),
        decreases configs@.len() - i,
    {
        proof {
            assert(views.take(i + 1).drop_last() =~= views.take(i as int));
            assert(views.take(i + 1).last() == configs@[i as int]@);
        }
        if let Err(e) = add_listener(&mut all, &configs[i], interfaces, default_name) {
            proof {
                lemma_passive_error(views, ifaces, name, i + 1);
            }
            return Err(e);
        }
        i = i + 1;
    }
    proof {
        assert(views.take(i as int) =~= views);
    }
    Ok(all)
}

/// The state of an interface on which nothing was heard or seen.
pub open spec fn fresh_state(entry: ContinuousPassiveInterfaceView) -> PassiveInterfaceStateView {
    PassiveInterfaceStateView {
        interface: entry.iface.name,
        targets: entry.targets,
        oui: entry.oui,
        devices: seq![],
        pending_observations: seq![],
    }
}

impl ContinuousPassiveManager {
    /// A manager for the interfaces that are listened on.
    pub fn new(interfaces: &Vec<ContinuousPassiveInterface>, rules: RuleDb, oui_db: TextMap) -> (r:
        Self)
        requires
            forall|i: int|
                0 <= i < interfaces@.len() ==> valid_targets(
                    (#[trigger] interfaces@[i]).targets@,
                ),
        ensures
            r@.states == interfaces.deep_view().map_values(
                |entry: ContinuousPassiveInterfaceView| fresh_state(entry),
            ),
            r@.rules == rules@,
            r@.oui_db == oui_db@,
            r@.valid(),
    {
        let ghost views = interfaces.deep_view();
        let mut states: Vec<PassiveInterfaceState> = Vec::new();
        let mut i: usize = 0;
        while i < interfaces.len()
            invariant
                i <= interfaces@.len(),
                views == interfaces.deep_view(),
                states@.len() == i,
                forall|k: int| 0 <= k < i ==> (#[trigger] states@[k])@ == fresh_state(views[k]),
            decreases interfaces@.len() - i,
        {
            let state = PassiveInterfaceState {
                interface: interfaces[i].iface.name.clone(),
                targets: interfaces[i].targets.clone(),
                oui: interfaces[i].oui,
                devices: Vec::new(),
                pending_observations: Vec::new(),
            };
            proof {
                assert(state.targets@ =~= interfaces@[i as int].targets@);
                assert(state.devices.deep_view() =~= seq![]);
                assert(state.pending_observations.deep_view() =~= seq![]);
            }
            states.push(state);
            i = i + 1;
        }
        let r = ContinuousPassiveManager { states, rules, oui_db };
        proof {
            assert(r@.states =~= views.map_values(
                |entry: ContinuousPassiveInterfaceView| fresh_state(entry),
            ));
            assert forall|k: int| 0 <= k < r@.states.len() implies (
            #[trigger] r@.states[k]).valid() by {
                assert(r@.states[k] == fresh_state(views[k]));
                assert(valid_targets(interfaces@[k].targets@));
            }
        }
        r
    }
}

/// A configuration that does not listen.
#[verifier::opaque]
pub open spec fn without_listening(c: ScanConfigView) -> ScanConfigView {
    ScanConfigView { lldp: false, cdp: false, ..c }
}

/// A copy of a configuration that does not listen.
fn quiet_config(config: &ScanConfig) -> (r: ScanConfig)
    ensures
        r@ == without_listening(config@),
{
    proof {
        reveal(without_listening);
    }
    let mut r = config.clone();
    r.lldp = false;
    r.cdp = false;
    r
}

/// The configurations of the rounds of a continuous scan: listening goes on across
/// the rounds, so that no round starts it.
pub fn round_scan_configs(configs: &Vec<ScanConfig>) -> (r: Vec<ScanConfig>)
    ensures
        r.deep_view() == configs.deep_view().map_values(
            |c: ScanConfigView| without_listening(c),
        ),
{
    let ghost views = configs.deep_view();
    let mut out: Vec<ScanConfig> = Vec::new();
    let mut i: usize = 0;
    while i < configs.len()
        invariant
            i <= configs@.len(),
            views == configs.deep_view(),
            out@.len() == i,
            forall|k: int| 0 <= k < i ==> (#[trigger] out@[k])@ == without_listening(views[k]),
        decreases configs@.len() - i,
    {
        out.push(quiet_config(&configs[i]));
        i = i + 1;
    }
    proof {
        assert(out.deep_view() =~= views.map_values(|c: ScanConfigView| without_listening(c)));
    }
    out
}

/// How a listener ended.
pub enum ListenerOutcome {
    /// As it should.
    Ended,
    /// It could not listen; why.
    Failed(String),
    /// Its task was lost; why.
    TaskFailed(String),
}

/// What is said of a listener that ended.
pub open spec fn listener_warning_spec(
    protocol: Seq<char>,
    interface: Seq<char>,
    outcome: ListenerOutcome,
) -> Option<Seq<char>> {
    match outcome {
        ListenerOutcome::Ended => None,
        ListenerOutcome::Failed(e) => Some(
            protocol + " listener failed on "@ + interface + (": "@ + e@),
        ),
        ListenerOutcome::TaskFailed(e) => Some(
            protocol + " listener task failed on "@ + interface + (": "@ + e@),
        ),
    }
}

/// Says how a listener ended, where it is worth saying.
pub fn passive_listener_warning(protocol: &str, interface: &str, outcome: ListenerOutcome) -> (r:
    Option<String>)
    ensures
        r.deep_view() == listener_warning_spec(protocol@, interface@, outcome),
{
    match outcome {
        ListenerOutcome::Ended => None,
        ListenerOutcome::Failed(e) => Some(
            concat4(
                protocol,
                " listener failed on ",
                interface,
                concat(": ", e.as_str()).as_str(),
            ),
        ),
        ListenerOutcome::TaskFailed(e) => Some(
            concat4(
                protocol,
                " listener task failed on ",
                interface,
                concat(": ", e.as_str()).as_str(),
            ),
        ),
    }
}

} // verus!
