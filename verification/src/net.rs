//! Local interface and target-network selection.
//!
//! Scanner code works on normalized IPv4 CIDRs and concrete interface metadata. What
//! the operating system says of routes and interfaces comes in as plain values.

pub mod chosen;

use crate::addr::{ipnet_parse, Ipv4Addr, Ipv4Net};
use crate::addr;
use crate::sort::{sorted, SortOrder};
use crate::sort;
use crate::text::{
    chars, concat, concat3, concat4, is_text, less, lines, lower, owned, starts_with, str_eq,
    strip_prefix, text, trim, words,
};
use crate::text;
use vstd::prelude::*;

verus! {

/// An interface with an IPv4 address.
#[derive(Debug, PartialEq, Eq)]
pub struct InterfaceInfo {
    pub name: String,
    pub ip: Ipv4Addr,
    pub netmask: Ipv4Addr,
    pub prefix: u8,
    pub network: Ipv4Net,
    pub mac: Option<String>,
}

/// The mathematical content of a [`InterfaceInfo`].
#[verifier::ext_equal]
pub struct InterfaceInfoView {
    pub name: Seq<char>,
    pub ip: Ipv4Addr,
    pub netmask: Ipv4Addr,
    pub prefix: u8,
    pub network: Ipv4Net,
    pub mac: Option<Seq<char>>,
}

impl View for InterfaceInfo {
    type V = InterfaceInfoView;

    open spec fn view(&self) -> InterfaceInfoView {
        InterfaceInfoView {
            name: self.name@,
            ip: self.ip,
            netmask: self.netmask,
            prefix: self.prefix,
            network: self.network,
            mac: self.mac.deep_view(),
        }
    }
}

impl DeepView for InterfaceInfo {
    type V = InterfaceInfoView;

    open spec fn deep_view(&self) -> InterfaceInfoView {
        self@
    }
}

impl Clone for InterfaceInfo {
    fn clone(&self) -> (r: Self)
        ensures
            r@ == self@,
    {
        let r = InterfaceInfo {
            name: self.name.clone(),
            ip: self.ip,
            netmask: self.netmask,
            prefix: self.prefix,
            network: self.network,
            mac: self.mac.clone(),
        };
        proof {
            assert(r.mac.deep_view() =~= self.mac.deep_view());
        }
        r
    }
}

/// An IPv4 address of an interface, as the operating system lists it.
#[derive(Debug, PartialEq, Eq)]
pub struct RawInterface {
    pub name: String,
    pub ip: Ipv4Addr,
    pub netmask: Ipv4Addr,
    pub loopback: bool,
}

/// The mathematical content of a [`RawInterface`].
#[verifier::ext_equal]
pub struct RawInterfaceView {
    pub name: Seq<char>,
    pub ip: Ipv4Addr,
    pub netmask: Ipv4Addr,
    pub loopback: bool,
}

impl View for RawInterface {
    type V = RawInterfaceView;

    open spec fn view(&self) -> RawInterfaceView {
        RawInterfaceView {
            name: self.name@,
            ip: self.ip,
            netmask: self.netmask,
            loopback: self.loopback,
        }
    }
}

impl DeepView for RawInterface {
    type V = RawInterfaceView;

    open spec fn deep_view(&self) -> RawInterfaceView {
        self@
    }
}

impl Clone for RawInterface {
    fn clone(&self) -> (r: Self)
        ensures
            r@ == self@,
    {
        let r = RawInterface {
            name: self.name.clone(),
            ip: self.ip,
            netmask: self.netmask,
            loopback: self.loopback,
        };
        r
    }
}

/// The hardware address of an interface, where it has one.
#[derive(Debug, PartialEq, Eq)]
pub struct HardwareAddress {
    pub name: String,
    pub mac: Option<String>,
}

/// The mathematical content of a [`HardwareAddress`].
#[verifier::ext_equal]
pub struct HardwareAddressView {
    pub name: Seq<char>,
    pub mac: Option<Seq<char>>,
}

impl View for HardwareAddress {
    type V = HardwareAddressView;

    open spec fn view(&self) -> HardwareAddressView {
        HardwareAddressView {
            name: self.name@,
            mac: self.mac.deep_view(),
        }
    }
}

impl DeepView for HardwareAddress {
    type V = HardwareAddressView;

    open spec fn deep_view(&self) -> HardwareAddressView {
        self@
    }
}

impl Clone for HardwareAddress {
    fn clone(&self) -> (r: Self)
        ensures
            r@ == self@,
    {
        let r = HardwareAddress {
            name: self.name.clone(),
            mac: self.mac.clone(),
        };
        proof {
            assert(r.mac.deep_view() =~= self.mac.deep_view());
        }
        r
    }
}

/// The netmask with so many leading ones.
pub open spec fn mask_spec(prefix: u8) -> int {
    0x1_0000_0000 - addr::block_size(prefix)
}

/// The length of the prefix that a netmask spells: all ones followed by all zeros.
/// Any other mask cannot be written as a prefix.
pub fn prefix_from_netmask(mask: Ipv4Addr) -> (r: Result<u8, String>)
    ensures
        match r {
            Ok(prefix) => prefix <= 32 && mask.bits == mask_spec(prefix),
            Err(e) => (forall|prefix: u8| prefix <= 32 ==> mask.bits != #[trigger] mask_spec(prefix))
                && e@ == "netmask is not contiguous: "@ + mask.text_spec(),
        },
{
    let mut size: u64 = 0x1_0000_0000;
    let mut prefix: u8 = 0;
    proof {
        vstd::arithmetic::power2::lemma2_to64();
    }
    while prefix < 32
        invariant
            prefix <= 32,
            size == addr::block_size(prefix),
            size <= 0x1_0000_0000,
            forall|p: u8| p < prefix ==> mask.bits != #[trigger] mask_spec(p),
        decreases 32 - prefix,
    {
        if mask.bits as u64 == 0x1_0000_0000 - size {
            return Ok(prefix);
        }
        proof {
            vstd::arithmetic::power2::lemma_pow2_unfold((32 - prefix) as nat);
        }
        size = size / 2;
        prefix = prefix + 1;
    }
    if mask.bits as u64 == 0x1_0000_0000 - size {
        return Ok(32);
    }
    Err(concat("netmask is not contiguous: ", mask.text().as_str()))
}

/// The last hardware address listed under a name.
pub open spec fn mac_of(all: Seq<HardwareAddressView>, name: Seq<char>) -> Option<Seq<char>>
    decreases all.len(),
{
    if all.len() == 0 {
        None
    } else if all.last().name == name {
        all.last().mac
    } else {
        mac_of(all.drop_last(), name)
    }
}

/// Looks up the hardware address of an interface.
fn find_mac(all: &Vec<HardwareAddress>, name: &str) -> (r: Option<String>)
    ensures
        r.deep_view() == mac_of(all.deep_view(), name@),
{
    let ghost views = all.deep_view();
    let mut i: usize = all.len();
    proof {
        assert(views.take(i as int) =~= views);
    }
    while i > 0
        invariant
            i <= all@.len(),
            views == all.deep_view(),
            mac_of(views, name@) == mac_of(views.take(i as int), name@),
        decreases i,
    {
        proof {
            assert(views.take(i as int).drop_last() =~= views.take(i - 1));
            assert(views.take(i as int).last() == all@[i - 1]@);
        }
        i = i - 1;
        if str_eq(all[i].name.as_str(), name) {
            let mac = all[i].mac.clone();
            proof {
                assert(mac.deep_view() == all@[i as int]@.mac);
            }
            return mac;
        }
    }
    None
}

/// Interfaces by name, then by address.
pub struct InterfaceOrder {}

impl SortOrder<InterfaceInfo> for InterfaceOrder {
    open spec fn before(a: InterfaceInfoView, b: InterfaceInfoView) -> bool {
        text::less_spec(a.name, b.name) || (a.name == b.name && a.ip.bits < b.ip.bits)
    }

    fn comes_before(a: &InterfaceInfo, b: &InterfaceInfo) -> (r: bool) {
        let left = chars(a.name.as_str());
        let right = chars(b.name.as_str());
        proof {
            text::lemma_less_total(left@, right@);
        }
        if less(left.as_slice(), right.as_slice()) {
            true
        } else if less(right.as_slice(), left.as_slice()) {
            false
        } else {
            a.ip.bits < b.ip.bits
        }
    }

    proof fn asymmetric(a: InterfaceInfoView, b: InterfaceInfoView) {
        text::lemma_less_total(a.name, b.name);
    }

    proof fn transitive(a: InterfaceInfoView, b: InterfaceInfoView, c: InterfaceInfoView) {
        text::lemma_less_total(a.name, b.name);
        text::lemma_less_total(b.name, c.name);
        text::lemma_less_total(a.name, c.name);
        if a.name != b.name && b.name != c.name {
            text::lemma_less_transitive(a.name, b.name, c.name);
        }
    }
}

/// The netmask spells a prefix.
pub open spec fn has_prefix(mask: Ipv4Addr) -> bool {
    exists|prefix: u8| prefix <= 32 && mask.bits == #[trigger] mask_spec(prefix)
}

/// The prefix that a netmask spells, where it spells one.
pub open spec fn prefix_spec(mask: Ipv4Addr) -> u8 {
    choose|prefix: u8| prefix <= 32 && mask.bits == #[trigger] mask_spec(prefix)
}

/// A netmask spells at most one prefix.
pub proof fn law_prefix_is_unique(a: u8, b: u8)
    requires
        a <= 32,
        b <= 32,
        mask_spec(a) == mask_spec(b),
    ensures
        a == b,
{
    if a < b {
        vstd::arithmetic::power2::lemma_pow2_strictly_increases((32 - b) as nat, (32 - a) as nat);
    }
    if b < a {
        vstd::arithmetic::power2::lemma_pow2_strictly_increases((32 - a) as nat, (32 - b) as nat);
    }
}

/// An interface as the scanner uses it, with its network in normal form.
pub open spec fn interface_spec(
    raw: RawInterfaceView,
    macs: Seq<HardwareAddressView>,
) -> InterfaceInfoView {
    let prefix = prefix_spec(raw.netmask);
    InterfaceInfoView {
        name: raw.name,
        ip: raw.ip,
        netmask: raw.netmask,
        prefix,
        network: Ipv4Net { addr: raw.ip, prefix }.network_spec(),
        mac: mac_of(macs, raw.name),
    }
}

/// What is said of an interface whose netmask spells no prefix.
pub open spec fn netmask_error(raw: RawInterfaceView) -> Seq<char> {
    "invalid netmask "@ + raw.netmask.text_spec() + " on "@ + raw.name
}

/// The interfaces in the order in which they are listed: loopback ones are left out,
/// and the first netmask that spells no prefix is an error.
pub open spec fn listed_spec(
    all: Seq<RawInterfaceView>,
    macs: Seq<HardwareAddressView>,
) -> Result<Seq<InterfaceInfoView>, Seq<char>>
    decreases all.len(),
{
    if all.len() == 0 {
        Ok(seq![])
    } else {
        match listed_spec(all.drop_last(), macs) {
            Ok(list) => if all.last().loopback {
                Ok(list)
            } else if has_prefix(all.last().netmask) {
                Ok(list.push(interface_spec(all.last(), macs)))
            } else {
                Err(netmask_error(all.last()))
            },
            Err(e) => Err(e),
        }
    }
}

/// An earlier error stands.
proof fn lemma_listed_error(all: Seq<RawInterfaceView>, macs: Seq<HardwareAddressView>, n: int)
    requires
        0 <= n <= all.len(),
        listed_spec(all.take(n), macs) is Err,
    ensures
        listed_spec(all, macs) == listed_spec(all.take(n), macs),
    decreases all.len(),
{
    if n == all.len() {
        assert(all.take(n) =~= all);
    } else {
        assert(all.drop_last().take(n) =~= all.take(n));
        lemma_listed_error(all.drop_last(), macs, n);
    }
}

/// Lists the interfaces with an IPv4 address, by name and address. The hardware
/// addresses are joined by the name of the interface.
pub fn list_interfaces(all: &Vec<RawInterface>, macs: &Vec<HardwareAddress>) -> (r: Result<
    Vec<InterfaceInfo>,
    String,
>)
    ensures
        match (r, listed_spec(all.deep_view(), macs.deep_view())) {
            (Ok(list), Ok(want)) => list.deep_view() == sort::sorted_spec::<InterfaceInfo, InterfaceOrder>(
                want,
            ),
            (Err(e), Err(want)) => e@ == want,
            _ => false,
        },
{
    let ghost views = all.deep_view();
    let ghost addresses = macs.deep_view();
    let mut list: Vec<InterfaceInfo> = Vec::new();
    let mut i: usize = 0;
    proof {
        assert(list.deep_view() =~= seq![]);
    }
    while i < all.len()
        invariant
            i <= all@.len(),
            views == all.deep_view(),
            addresses == macs.deep_view(),
            listed_spec(views.take(i as int), addresses) matches Ok(want) && want
                == list.deep_view(),
        decreases all@.len() - i,
    {
        let raw = &all[i];
        proof {
            assert(views.take(i + 1).drop_last() =~= views.take(i as int));
            assert(views.take(i + 1).last() == raw@);
        }
        if !raw.loopback {
            match prefix_from_netmask(raw.netmask) {
                Ok(prefix) => {
                    let ghost before = list.deep_view();
                    proof {
                        assert(has_prefix(raw.netmask));
                        law_prefix_is_unique(prefix, prefix_spec(raw.netmask));
                    }
                    let info = InterfaceInfo {
                        name: raw.name.clone(),
                        ip: raw.ip,
                        netmask: raw.netmask,
                        prefix,
                        network: Ipv4Net { addr: raw.ip, prefix }.network(),
                        mac: find_mac(macs, raw.name.as_str()),
                    };
                    let ghost view = info@;
                    list.push(info);
                    proof {
                        assert(list.deep_view() =~= before.push(view));
                    }
                },
                Err(_) => {
                    let e = concat4(
                        "invalid netmask ",
                        raw.netmask.text().as_str(),
                        " on ",
                        raw.name.as_str(),
                    );
                    proof {
                        assert(!has_prefix(raw.netmask));
                        lemma_listed_error(views, addresses, i + 1);
                    }
                    return Err(e);
                },
            }
        }
        i = i + 1;
    }
    proof {
        assert(views.take(i as int) =~= views);
    }
    Ok(sorted::<InterfaceInfo, InterfaceOrder>(list))
}

/// The first interface with a name.
pub open spec fn named(all: Seq<InterfaceInfoView>, name: Seq<char>) -> Option<InterfaceInfoView>
    decreases all.len(),
{
    if all.len() == 0 {
        None
    } else if all[0].name == name {
        Some(all[0])
    } else {
        named(all.drop_first(), name)
    }
}

/// Finds the first interface with a name.
fn find_named(all: &Vec<InterfaceInfo>, name: &str) -> (r: Option<InterfaceInfo>)
    ensures
        r.deep_view() == named(all.deep_view(), name@),
{
    let ghost views = all.deep_view();
    let mut i: usize = 0;
    proof {
        assert(views.skip(0) =~= views);
    }
    while i < all.len()
        invariant
            i <= all@.len(),
            views == all.deep_view(),
            named(views, name@) == named(views.skip(i as int), name@),
        decreases all@.len() - i,
    {
        proof {
            assert(views.skip(i as int)[0] == all@[i as int]@);
            assert(views.skip(i as int).drop_first() =~= views.skip(i + 1));
        }
        if str_eq(all[i].name.as_str(), name) {
            return Some(all[i].clone());
        }
        i = i + 1;
    }
    None
}

/// How the names of loopback, tunnel, and virtual interfaces start.
pub open spec fn special_prefixes() -> Seq<Seq<char>> {
    seq![
        "lo"@,
        "utun"@,
        "awdl"@,
        "llw"@,
        "bridge"@,
        "vmnet"@,
        "vbox"@,
        "docker"@,
        "tailscale"@,
        "zt"@,
    ]
}

/// The name looks like that of a virtual or special interface.
pub open spec fn special_name(name: Seq<char>) -> bool {
    exists|i: int|
        0 <= i < special_prefixes().len() && text::starts_with_spec(
            text::lower_spec(name),
            #[trigger] special_prefixes()[i],
        )
}

/// Reports whether a name looks like that of a virtual or special interface.
pub fn looks_virtual_or_special(name: &str) -> (r: bool)
    ensures
        r == special_name(name@),
{
    let low = lower(chars(name).as_slice());
    let low = low.as_slice();
    let r = starts_with(low, "lo")
        || starts_with(low, "utun")
        || starts_with(low, "awdl")
        || starts_with(low, "llw")
        || starts_with(low, "bridge")
        || starts_with(low, "vmnet")
        || starts_with(low, "vbox")
        || starts_with(low, "docker")
        || starts_with(low, "tailscale")
        || starts_with(low, "zt");
    proof {
        let p = special_prefixes();
        let l = text::lower_spec(name@);
        assert(p[0] == "lo"@ && p[1] == "utun"@ && p[2] == "awdl"@ && p[3] == "llw"@ && p[4] == "bridge"@ && p[5] == "vmnet"@ && p[6] == "vbox"@ && p[7] == "docker"@ && p[8] == "tailscale"@ && p[9] == "zt"@);
        if r {
            assert(text::starts_with_spec(l, p[0]) || text::starts_with_spec(l, p[1]) || text::starts_with_spec(l, p[2]) || text::starts_with_spec(l, p[3]) || text::starts_with_spec(l, p[4]) || text::starts_with_spec(l, p[5]) || text::starts_with_spec(l, p[6]) || text::starts_with_spec(l, p[7]) || text::starts_with_spec(l, p[8]) || text::starts_with_spec(l, p[9]));
        }
    }
    r
}

/// The first interface that does not look virtual or special.
pub open spec fn first_ordinary(all: Seq<InterfaceInfoView>) -> Option<InterfaceInfoView>
    decreases all.len(),
{
    if all.len() == 0 {
        None
    } else if !special_name(all[0].name) {
        Some(all[0])
    } else {
        first_ordinary(all.drop_first())
    }
}

/// The content of an optional text.
pub open spec fn opt_str(s: Option<&str>) -> Option<Seq<char>> {
    match s {
        Some(s) => Some(s@),
        None => None,
    }
}

/// The interface to scan: the requested one, or that of the default route, or the
/// first that looks ordinary.
pub open spec fn selected(
    all: Seq<InterfaceInfoView>,
    requested: Option<Seq<char>>,
    default_name: Option<Seq<char>>,
) -> Result<InterfaceInfoView, Seq<char>> {
    match requested {
        Some(name) => match named(all, name) {
            Some(info) => Ok(info),
            None => Err("interface "@ + name + " was not found or has no IPv4 address"@),
        },
        None => {
            let by_route = match default_name {
                Some(name) => named(all, name),
                None => None,
            };
            match by_route {
                Some(info) => Ok(info),
                None => match first_ordinary(all) {
                    Some(info) => Ok(info),
                    None => Err("no usable IPv4 interface found"@),
                },
            }
        },
    }
}

/// Selects the interface to scan. The default route usually matches the LAN one
/// expects to scan, and it avoids selecting VPN and tunnel interfaces first.
pub fn select_interface(
    all: &Vec<InterfaceInfo>,
    requested: Option<&str>,
    default_name: Option<&str>,
) -> (r: Result<InterfaceInfo, String>)
    ensures
        match (r, selected(all.deep_view(), opt_str(requested), opt_str(default_name))) {
            (Ok(info), Ok(want)) => info@ == want,
            (Err(e), Err(want)) => e@ == want,
            _ => false,
        },
{
    if let Some(name) = requested {
        return match find_named(all, name) {
            Some(info) => Ok(info),
            None => Err(concat3("interface ", name, " was not found or has no IPv4 address")),
        };
    }
    if let Some(name) = default_name {
        if let Some(info) = find_named(all, name) {
            return Ok(info);
        }
    }
    let ghost views = all.deep_view();
    let mut i: usize = 0;
    proof {
        assert(views.skip(0) =~= views);
    }
    while i < all.len()
        invariant
            i <= all@.len(),
            views == all.deep_view(),
            requested is None,
            default_name matches Some(name) ==> named(views, name@) is None,
            first_ordinary(views) == first_ordinary(views.skip(i as int)),
        decreases all@.len() - i,
    {
        proof {
            assert(views.skip(i as int)[0] == all@[i as int]@);
            assert(views.skip(i as int).drop_first() =~= views.skip(i + 1));
        }
        if !looks_virtual_or_special(all[i].name.as_str()) {
            return Ok(all[i].clone());
        }
        i = i + 1;
    }
    Err(owned("no usable IPv4 interface found"))
}

/// The network that a text in CIDR notation names, in normal form.
pub open spec fn target_spec(value: Seq<char>) -> Option<Ipv4Net> {
    match addr::cidr_spec(value) {
        Some((bits, prefix)) => Some(
            Ipv4Net { addr: Ipv4Addr { bits }, prefix }.network_spec(),
        ),
        None => None,
    }
}

/// What is said of a text that names no network.
pub open spec fn target_error(value: Seq<char>) -> Seq<char> {
    "invalid IPv4 CIDR target: "@ + value
}

/// Reads a target network. Host addresses such as 192.168.1.42/24 become the network
/// form so cache keys, status text, and equality checks are stable.
pub fn parse_cidr_target(value: &str) -> (r: Result<Ipv4Net, String>)
    ensures
        match r {
            Ok(net) => target_spec(value@) == Some(net) && net.valid(),
            Err(e) => target_spec(value@) is None && e@ == target_error(value@),
        },
{
    match ipnet_parse(value) {
        Some((bits, prefix)) => {
            proof {
                assert(prefix <= 32);
            }
            Ok(Ipv4Net { addr: Ipv4Addr { bits }, prefix }.network())
        },
        None => Err(concat("invalid IPv4 CIDR target: ", value)),
    }
}

/// The target network: the one that is given, or that of the interface.
pub fn parse_target(target: Option<&str>, iface: &InterfaceInfo) -> (r: Result<Ipv4Net, String>)
    ensures
        match (r, target) {
            (Ok(net), Some(value)) => target_spec(value@) == Some(net) && net.valid(),
            (Ok(net), None) => net == iface.network,
            (Err(e), Some(value)) => target_spec(value@) is None && e@ == target_error(value@),
            (Err(_), None) => false,
        },
{
    match target {
        Some(value) => parse_cidr_target(value),
        None => Ok(iface.network),
    }
}

/// Writes a target network in normal form.
pub fn normalize_cidr_target(value: &str) -> (r: Result<String, String>)
    ensures
        match r {
            Ok(t) => target_spec(value@) matches Some(net) && t@ == net.text_spec(),
            Err(e) => target_spec(value@) is None && e@ == target_error(value@),
        },
{
    Ok(parse_cidr_target(value)?.text())
}

/// A target in normal form stands for itself: reading it again gives the same
/// network, and so the same text.
pub proof fn law_normal_target_is_stable(value: Seq<char>)
    requires
        target_spec(value) is Some,
    ensures
        target_spec(target_spec(value)->0.text_spec()) == target_spec(value),
{
    let (bits, prefix) = addr::cidr_spec(value)->0;
    let given = Ipv4Net { addr: Ipv4Addr { bits }, prefix };
    addr::law_network_is_idempotent(given);
    addr::law_network_text_reads_back(given.network_spec());
}

/// What follows "interface:" in the first line that starts with it.
pub open spec fn route_get_spec(all: Seq<Seq<char>>) -> Option<Seq<char>>
    decreases all.len(),
{
    if all.len() == 0 {
        None
    } else {
        match text::strip_prefix_spec(text::trim_spec(all[0]), "interface:"@) {
            Some(rest) => Some(text::trim_spec(rest)),
            None => route_get_spec(all.drop_first()),
        }
    }
}

/// Reads the interface of the default route as macOS prints it.
pub fn parse_route_get_default_interface(output: &str) -> (r: Option<String>)
    ensures
        r.deep_view() == route_get_spec(text::lines_spec(output@)),
{
    let c = chars(output);
    let all = lines(c.as_slice());
    let ghost views = text::slice_views(all@);
    let mut i: usize = 0;
    proof {
        assert(views.skip(0) =~= views);
    }
    while i < all.len()
        invariant
            i <= all@.len(),
            views == text::slice_views(all@),
            views == text::lines_spec(output@),
            route_get_spec(views) == route_get_spec(views.skip(i as int)),
        decreases all@.len() - i,
    {
        proof {
            assert(views.skip(i as int)[0] == all@[i as int]@);
            assert(views.skip(i as int).drop_first() =~= views.skip(i + 1));
        }
        if let Some(rest) = strip_prefix(trim(all[i]), "interface:") {
            return Some(text(trim(rest)));
        }
        i = i + 1;
    }
    None
}

/// The word after the first occurrence of another.
pub open spec fn word_after(w: Seq<Seq<char>>, token: Seq<char>) -> Option<Seq<char>>
    decreases w.len(),
{
    if w.len() == 0 {
        None
    } else if w[0] == token {
        if w.len() > 1 {
            Some(w[1])
        } else {
            None
        }
    } else {
        word_after(w.drop_first(), token)
    }
}

/// Finds the word after the first occurrence of another.
pub fn value_after_token<'a>(line: &'a [char], token: &str) -> (r: Option<&'a [char]>)
    ensures
        text::slice_opt(r) == word_after(text::words_spec(line@), token@),
{
    let w = words(line);
    let ghost views = text::slice_views(w@);
    let mut i: usize = 0;
    proof {
        assert(views.skip(0) =~= views);
    }
    while i < w.len()
        invariant
            i <= w@.len(),
            views == text::slice_views(w@),
            views == text::words_spec(line@),
            word_after(views, token@) == word_after(views.skip(i as int), token@),
        decreases w@.len() - i,
    {
        proof {
            assert(views.skip(i as int)[0] == w@[i as int]@);
            assert(views.skip(i as int).drop_first() =~= views.skip(i + 1));
        }
        if is_text(w[i], token) {
            return if i + 1 < w.len() {
                proof {
                    assert(views.skip(i as int)[1] == w@[i + 1]@);
                }
                Some(w[i + 1])
            } else {
                None
            };
        }
        i = i + 1;
    }
    None
}

/// The word after "dev" in the first line that has one.
pub open spec fn ip_route_spec(all: Seq<Seq<char>>) -> Option<Seq<char>>
    decreases all.len(),
{
    if all.len() == 0 {
        None
    } else {
        match word_after(text::words_spec(all[0]), "dev"@) {
            Some(name) => Some(name),
            None => ip_route_spec(all.drop_first()),
        }
    }
}

/// Reads the interface of the default route as Linux prints it.
pub fn parse_ip_route_default_interface(output: &str) -> (r: Option<String>)
    ensures
        r.deep_view() == ip_route_spec(text::lines_spec(output@)),
{
    let c = chars(output);
    let all = lines(c.as_slice());
    let ghost views = text::slice_views(all@);
    let mut i: usize = 0;
    proof {
        assert(views.skip(0) =~= views);
    }
    while i < all.len()
        invariant
            i <= all@.len(),
            views == text::slice_views(all@),
            views == text::lines_spec(output@),
            ip_route_spec(views) == ip_route_spec(views.skip(i as int)),
        decreases all@.len() - i,
    {
        proof {
            assert(views.skip(i as int)[0] == all@[i as int]@);
            assert(views.skip(i as int).drop_first() =~= views.skip(i + 1));
        }
        if let Some(name) = value_after_token(all[i], "dev") {
            return Some(text(name));
        }
        i = i + 1;
    }
    None
}

/// The interface of the default route, from the outputs of the two route commands
/// where they succeeded.
pub open spec fn default_name_spec(
    route_get: Option<Seq<char>>,
    ip_route: Option<Seq<char>>,
) -> Option<Seq<char>> {
    let first = match route_get {
        Some(output) => route_get_spec(text::lines_spec(output)),
        None => None,
    };
    let name = match (first, ip_route) {
        (Some(name), _) => Some(name),
        (None, Some(output)) => ip_route_spec(text::lines_spec(output)),
        (None, None) => None,
    };
    match name {
        Some(name) => if name.len() == 0 {
            None
        } else {
            Some(name)
        },
        None => None,
    }
}

/// The interface of the default route: macOS exposes it through `route -n get
/// default`, Linux through `ip route show default`.
pub fn default_interface_name(route_get: Option<&str>, ip_route: Option<&str>) -> (r: Option<
    String,
>)
    ensures
        r.deep_view() == default_name_spec(opt_str(route_get), opt_str(ip_route)),
{
    let first = match route_get {
        Some(output) => parse_route_get_default_interface(output),
        None => None,
    };
    let name = match first {
        Some(name) => Some(name),
        None => match ip_route {
            Some(output) => parse_ip_route_default_interface(output),
            None => None,
        },
    };
    match name {
        Some(name) => {
            if name.as_str().is_empty() {
                None
            } else {
                Some(name)
            }
        },
        None => None,
    }
}

} // verus!
