//! Which interfaces there are, and which one is scanned.

use crate::addr::{Ipv4Addr, Ipv4Net};
use crate::addr;
use crate::net::{HardwareAddressView, InterfaceInfoView, RawInterfaceView};
use crate::net;
use crate::text::laws;
use crate::text;
use vstd::prelude::*;

verus! {

/// The hardware address of an interface is that of the last entry under its name.
pub proof fn law_hardware_address_is_of_the_name(
    all: Seq<HardwareAddressView>,
    name: Seq<char>,
    i: int,
)
    ensures
        0 <= i < all.len() && all[i].name == name && (forall|j: int|
            i < j < all.len() ==> (#[trigger] all[j]).name != name) ==> net::mac_of(all, name)
            == all[i].mac,
        (forall|j: int| 0 <= j < all.len() ==> (#[trigger] all[j]).name != name) ==> net::mac_of(
            all,
            name,
        ) is None,
    decreases all.len(),
{
    if all.len() > 0 {
        let front = all.drop_last();
        law_hardware_address_is_of_the_name(front, name, i);
        assert(all[all.len() - 1] == all.last());
        if forall|j: int| 0 <= j < all.len() ==> (#[trigger] all[j]).name != name {
            assert forall|j: int| 0 <= j < front.len() implies (#[trigger] front[j]).name
                != name by {
                assert(front[j] == all[j]);
            }
        }
        if 0 <= i < all.len() && all[i].name == name && (forall|j: int|
            i < j < all.len() ==> (#[trigger] all[j]).name != name) {
            if i < front.len() {
                assert(all.last().name != name);
                assert forall|j: int| i < j < front.len() implies (#[trigger] front[j]).name
                    != name by {
                    assert(front[j] == all[j]);
                }
                assert(front[i] == all[i]);
            }
        }
    }
}

/// An interface keeps its name, its address, and its netmask; its prefix spells the
/// netmask, and its network is the block of that size that its address lies in.
pub proof fn law_interface_is_what_the_system_lists(
    raw: RawInterfaceView,
    macs: Seq<HardwareAddressView>,
)
    requires
        net::has_prefix(raw.netmask),
    ensures
        ({
            let i = net::interface_spec(raw, macs);
            let size = vstd::arithmetic::power2::pow2((32 - i.prefix) as nat) as int;
            &&& i.name == raw.name && i.ip == raw.ip && i.netmask == raw.netmask
            &&& i.prefix <= 32
            &&& raw.netmask.bits == 0x1_0000_0000 - size
            &&& i.network.prefix == i.prefix
            &&& i.network.addr.bits <= raw.ip.bits < i.network.addr.bits + size
            &&& i.network.addr.bits as int % size == 0
            &&& i.mac == net::mac_of(macs, raw.name)
        }),
{
    let i = net::interface_spec(raw, macs);
    let size = addr::block_size(i.prefix) as int;
    vstd::arithmetic::power2::lemma_pow2_pos((32 - i.prefix) as nat);
    let bits = raw.ip.bits as int;
    vstd::arithmetic::div_mod::lemma_mod_bound(bits, size);
    vstd::arithmetic::div_mod::lemma_fundamental_div_mod(bits, size);
    vstd::arithmetic::div_mod::lemma_mod_bound(bits, size);
    let first = bits - bits % size;
    assert(first == size * (bits / size));
    vstd::arithmetic::div_mod::lemma_mod_multiples_basic(bits / size, size);
    vstd::arithmetic::mul::lemma_mul_is_commutative(size, bits / size);
    assert(first % size == 0);
    vstd::arithmetic::mul::lemma_mul_nonnegative(size, bits / size);
    assert(0 <= first <= bits);
    assert(i.network.addr.bits == first);
}

/// The interfaces that count are those of the system that are no loopback, and a netmask
/// that spells no prefix among these is an error.
pub proof fn law_interfaces_are_listed(
    all: Seq<RawInterfaceView>,
    macs: Seq<HardwareAddressView>,
    x: InterfaceInfoView,
)
    ensures
        ({
            let listed = net::listed_spec(all, macs);
            &&& listed is Err <==> exists|i: int|
                0 <= i < all.len() && !(#[trigger] all[i]).loopback && !net::has_prefix(
                    all[i].netmask,
                )
            &&& listed is Ok ==> (listed->Ok_0.contains(x) <==> exists|i: int|
                0 <= i < all.len() && !(#[trigger] all[i]).loopback && x == net::interface_spec(
                    all[i],
                    macs,
                ))
        }),
    decreases all.len(),
{
    if all.len() > 0 {
        let front = all.drop_last();
        let last = all.last();
        law_interfaces_are_listed(front, macs, x);
        assert(all[all.len() - 1] == last);
        if exists|i: int|
            0 <= i < front.len() && !(#[trigger] front[i]).loopback && !net::has_prefix(
                front[i].netmask,
            ) {
            let i = choose|i: int|
                0 <= i < front.len() && !(#[trigger] front[i]).loopback && !net::has_prefix(
                    front[i].netmask,
                );
            assert(all[i] == front[i]);
        }
        if exists|i: int|
            0 <= i < all.len() && !(#[trigger] all[i]).loopback && !net::has_prefix(
                all[i].netmask,
            ) {
            let i = choose|i: int|
                0 <= i < all.len() && !(#[trigger] all[i]).loopback && !net::has_prefix(
                    all[i].netmask,
                );
            if i < front.len() {
                assert(front[i] == all[i]);
            }
        }
        let listed = net::listed_spec(all, macs);
        if listed is Ok {
            let before = net::listed_spec(front, macs)->Ok_0;
            let after = listed->Ok_0;
            if before.contains(x) {
                let k = choose|k: int| 0 <= k < before.len() && before[k] == x;
                assert(after[k] == x);
                let i = choose|i: int|
                    0 <= i < front.len() && !(#[trigger] front[i]).loopback && x
                        == net::interface_spec(front[i], macs);
                assert(all[i] == front[i]);
            }
            if exists|i: int|
                0 <= i < all.len() && !(#[trigger] all[i]).loopback && x == net::interface_spec(
                    all[i],
                    macs,
                ) {
                let i = choose|i: int|
                    0 <= i < all.len() && !(#[trigger] all[i]).loopback && x == net::interface_spec(
                        all[i],
                        macs,
                    );
                if i < front.len() {
                    assert(front[i] == all[i]);
                } else {
                    assert(after[before.len() as int] == x);
                }
            }
            if after.contains(x) && !before.contains(x) {
                let k = choose|k: int| 0 <= k < after.len() && after[k] == x;
                if k < before.len() {
                    assert(before[k] == x);
                }
            }
        }
    }
}

/// The interface is the first that meets a condition.
pub open spec fn first_named(
    all: Seq<InterfaceInfoView>,
    name: Seq<char>,
    x: InterfaceInfoView,
) -> bool {
    exists|i: int|
        0 <= i < all.len() && #[trigger] all[i] == x && x.name == name && forall|j: int|
            0 <= j < i ==> (#[trigger] all[j]).name != name
}

/// Some interface has a name.
pub open spec fn has_named(all: Seq<InterfaceInfoView>, name: Seq<char>) -> bool {
    exists|i: int| 0 <= i < all.len() && (#[trigger] all[i]).name == name
}

/// The first interface with a name.
proof fn lemma_named(all: Seq<InterfaceInfoView>, name: Seq<char>)
    ensures
        net::named(all, name) is Some <==> has_named(all, name),
        net::named(all, name) is Some ==> first_named(all, name, net::named(all, name)->0),
    decreases all.len(),
{
    if all.len() > 0 {
        if all[0].name == name {
            assert(all[0] == net::named(all, name)->0);
        } else {
            let tail = all.drop_first();
            lemma_named(tail, name);
            if has_named(tail, name) {
                let i = choose|i: int| 0 <= i < tail.len() && (#[trigger] tail[i]).name == name;
                assert(all[i + 1] == tail[i]);
                let x = net::named(all, name)->0;
                let k = choose|k: int|
                    0 <= k < tail.len() && #[trigger] tail[k] == x && x.name == name && forall|
                        j: int,
                    |
                        0 <= j < k ==> (#[trigger] tail[j]).name != name;
                assert(all[k + 1] == x);
                assert forall|j: int| 0 <= j < k + 1 implies (#[trigger] all[j]).name != name by {
                    if j > 0 {
                        assert(tail[j - 1] == all[j]);
                    }
                }
            }
            if has_named(all, name) {
                let i = choose|i: int| 0 <= i < all.len() && (#[trigger] all[i]).name == name;
                assert(tail[i - 1] == all[i]);
            }
        }
    }
}

/// The interface is the first whose name looks ordinary.
pub open spec fn is_first_ordinary(all: Seq<InterfaceInfoView>, x: InterfaceInfoView) -> bool {
    exists|i: int|
        0 <= i < all.len() && #[trigger] all[i] == x && !net::special_name(x.name) && forall|j: int|
            0 <= j < i ==> net::special_name((#[trigger] all[j]).name)
}

/// The first interface that looks ordinary.
proof fn lemma_first_ordinary(all: Seq<InterfaceInfoView>)
    ensures
        net::first_ordinary(all) is None <==> forall|i: int|
            0 <= i < all.len() ==> net::special_name((#[trigger] all[i]).name),
        net::first_ordinary(all) is Some ==> is_first_ordinary(all, net::first_ordinary(all)->0),
    decreases all.len(),
{
    if all.len() > 0 {
        if !net::special_name(all[0].name) {
            assert(all[0] == net::first_ordinary(all)->0);
        } else {
            let tail = all.drop_first();
            lemma_first_ordinary(tail);
            if net::first_ordinary(all) is Some {
                let x = net::first_ordinary(all)->0;
                let k = choose|k: int|
                    0 <= k < tail.len() && #[trigger] tail[k] == x && !net::special_name(x.name)
                        && forall|j: int|
                        0 <= j < k ==> net::special_name((#[trigger] tail[j]).name);
                assert(all[k + 1] == x);
                assert forall|j: int| 0 <= j < k + 1 implies net::special_name(
                    (#[trigger] all[j]).name,
                ) by {
                    if j > 0 {
                        assert(tail[j - 1] == all[j]);
                    }
                }
            } else {
                assert forall|i: int| 0 <= i < all.len() implies net::special_name(
                    (#[trigger] all[i]).name,
                ) by {
                    if i > 0 {
                        assert(tail[i - 1] == all[i]);
                    }
                }
            }
        }
    }
}

/// The interface that is scanned is the one that is asked for, and only that; where none
/// is, that of the default route; and where that is not there, the first that looks
/// ordinary.
pub proof fn law_interface_is_chosen(
    all: Seq<InterfaceInfoView>,
    requested: Option<Seq<char>>,
    default_name: Option<Seq<char>>,
)
    ensures
        ({
            let chosen = net::selected(all, requested, default_name);
            let by_route = default_name is Some && has_named(all, default_name->0);
            &&& requested is Some ==> (chosen is Ok <==> has_named(all, requested->0))
            &&& requested is Some && chosen is Ok ==> first_named(all, requested->0, chosen->Ok_0)
            &&& requested is None && by_route ==> chosen is Ok && first_named(
                all,
                default_name->0,
                chosen->Ok_0,
            )
            &&& requested is None && !by_route && chosen is Ok ==> is_first_ordinary(
                all,
                chosen->Ok_0,
            )
            &&& requested is None && !by_route && chosen is Err ==> forall|i: int|
                0 <= i < all.len() ==> net::special_name((#[trigger] all[i]).name)
        }),
{
    if requested is Some {
        lemma_named(all, requested->0);
    }
    if default_name is Some {
        lemma_named(all, default_name->0);
    }
    lemma_first_ordinary(all);
}

/// A name looks special by how it starts, whatever the case of its letters.
pub proof fn law_special_names(name: Seq<char>)
    ensures
        ({
            let low = text::lower_spec(name);
            net::special_name(name) <==> text::starts_with_spec(low, "lo"@)
                || text::starts_with_spec(low, "utun"@) || text::starts_with_spec(low, "awdl"@)
                || text::starts_with_spec(low, "llw"@) || text::starts_with_spec(low, "bridge"@)
                || text::starts_with_spec(low, "vmnet"@) || text::starts_with_spec(low, "vbox"@)
                || text::starts_with_spec(low, "docker"@) || text::starts_with_spec(
                low,
                "tailscale"@,
            ) || text::starts_with_spec(low, "zt"@)
        }),
{
    let p = net::special_prefixes();
    assert(p.len() == 10);
    assert(p[0] == "lo"@ && p[1] == "utun"@ && p[2] == "awdl"@ && p[3] == "llw"@);
    assert(p[4] == "bridge"@ && p[5] == "vmnet"@ && p[6] == "vbox"@ && p[7] == "docker"@);
    assert(p[8] == "tailscale"@ && p[9] == "zt"@);
}

/// A network has the addresses that share its leading bits: of a block of its size, from
/// the first that is a multiple of that size.
pub proof fn law_network_has_its_block(net: Ipv4Net, ip: Ipv4Addr)
    requires
        net.prefix <= 32,
    ensures
        ({
            let size = vstd::arithmetic::power2::pow2((32 - net.prefix) as nat) as int;
            net.contains_spec(ip) <==> ip.bits as int / size == net.addr.bits as int / size
        }),
{
    let size = addr::block_size(net.prefix) as int;
    vstd::arithmetic::power2::lemma_pow2_pos((32 - net.prefix) as nat);
    let a = net.addr.bits as int;
    let b = ip.bits as int;
    vstd::arithmetic::div_mod::lemma_fundamental_div_mod(a, size);
    vstd::arithmetic::div_mod::lemma_fundamental_div_mod(b, size);
    vstd::arithmetic::div_mod::lemma_mod_bound(a, size);
    vstd::arithmetic::div_mod::lemma_mod_bound(b, size);
    let p = a / size;
    let q = b / size;
    assert(net.first_spec() == size * p);
    if size * p <= b <= size * p + size - 1 {
        assert(p == q) by (nonlinear_arith)
            requires
                size > 0,
                size * p <= b <= size * p + size - 1,
                b == size * q + b % size,
                0 <= b % size < size,
        ;
    }
}

/// The interface of the default route is what a line names behind "interface:"; the first
/// such line counts.
pub proof fn law_route_names_its_interface(
    before: Seq<Seq<char>>,
    name: Seq<char>,
    rest: Seq<Seq<char>>,
)
    requires
        forall|i: int|
            0 <= i < before.len() ==> !text::starts_with_spec(
                text::trim_spec(#[trigger] before[i]),
                "interface:"@,
            ),
        name.len() > 0,
        laws::edged(name),
    ensures
        net::route_get_spec(before + seq![seq![' '] + "interface: "@ + name] + rest) == Some(name),
        net::route_get_spec(before) is None,
    decreases before.len(),
{
    let none = Seq::<char>::empty();
    let line = seq![' '] + "interface: "@ + name;
    let all = before + seq![line] + rest;
    if before.len() == 0 {
        reveal_strlit("interface: ");
        reveal_strlit("interface:");
        assert(laws::blank(none));
        assert(laws::blank(seq![' ']));
        let trimmed = "interface: "@ + name;
        assert(trimmed.last() == name.last());
        laws::law_trimming_takes_the_white_space_around(seq![' '], trimmed, none);
        assert(seq![' '] + trimmed + none =~= line);
        assert("interface: "@ =~= "interface:"@ + seq![' ']);
        assert(trimmed =~= "interface:"@ + (seq![' '] + name));
        laws::law_texts_contain_their_parts(none, "interface:"@, seq![' '] + name);
        laws::law_trimming_takes_the_white_space_around(seq![' '], name, none);
        assert(seq![' '] + name + none =~= seq![' '] + name);
        assert(all[0] == line);
    } else {
        let tail = before.drop_first();
        assert forall|i: int| 0 <= i < tail.len() implies !text::starts_with_spec(
            text::trim_spec(#[trigger] tail[i]),
            "interface:"@,
        ) by {
            assert(tail[i] == before[i + 1]);
        }
        law_route_names_its_interface(tail, name, rest);
        assert(all[0] == before[0]);
        assert(all.drop_first() =~= tail + seq![line] + rest);
    }
}

} // verus!
