//! How addresses and numbers are spelled.

use crate::addr::{IpAddr, Ipv4Addr, Ipv4Net, Ipv6Addr};
use crate::addr;
use crate::text;
use vstd::prelude::*;

verus! {

/// An address is written by its four octets in decimal, the highest first, with dots
/// between them.
pub proof fn law_address_is_written_by_octets(a: u8, b: u8, c: u8, d: u8)
    ensures
        ({
            let ip = Ipv4Addr {
                bits: (a * 0x100_0000 + b * 0x1_0000 + c * 0x100 + d) as u32,
            };
            ip.text_spec() == text::decimal_spec(a as nat) + seq!['.'] + text::decimal_spec(
                b as nat,
            ) + seq!['.'] + text::decimal_spec(c as nat) + seq!['.'] + text::decimal_spec(d as nat)
        }),
{
    let ip = Ipv4Addr { bits: (a * 0x100_0000 + b * 0x1_0000 + c * 0x100 + d) as u32 };
    lemma_octets(a, b, c, d);
    let p = seq![
        text::decimal_spec(a as nat),
        text::decimal_spec(b as nat),
        text::decimal_spec(c as nat),
        text::decimal_spec(d as nat),
    ];
    lemma_four_joined(p, seq!['.']);
}

/// The octets of an address are those it is made of.
pub proof fn lemma_octets(a: u8, b: u8, c: u8, d: u8)
    ensures
        ({
            let ip = Ipv4Addr {
                bits: (a * 0x100_0000 + b * 0x1_0000 + c * 0x100 + d) as u32,
            };
            &&& ip.octet_spec(0) == a
            &&& ip.octet_spec(1) == b
            &&& ip.octet_spec(2) == c
            &&& ip.octet_spec(3) == d
        }),
{
    let bits = a * 0x100_0000 + b * 0x1_0000 + c * 0x100 + d;
    assert(bits / 0x100_0000 == a);
    assert(bits / 0x1_0000 == a * 0x100 + b);
    assert(bits / 0x100 == a * 0x1_0000 + b * 0x100 + c);
    assert(bits % 0x100 == d);
}

/// Four parts are joined with three separators.
pub proof fn lemma_four_joined(p: Seq<Seq<char>>, sep: Seq<char>)
    requires
        p.len() == 4,
    ensures
        text::join_spec(p, sep) == p[0] + sep + p[1] + sep + p[2] + sep + p[3],
{
    let three = p.drop_last();
    let two = three.drop_last();
    let one = two.drop_last();
    assert(text::join_spec(one, sep) =~= p[0]);
    assert(text::join_spec(two, sep) =~= p[0] + sep + p[1]);
    assert(text::join_spec(three, sep) =~= p[0] + sep + p[1] + sep + p[2]);
    assert(text::join_spec(p, sep) =~= p[0] + sep + p[1] + sep + p[2] + sep + p[3]);
}

/// A number is written in decimal: a single digit by itself, and any other number by what
/// is left of it without its last digit, and that digit.
pub proof fn law_numbers_are_written_in_decimal(n: nat, d: nat)
    requires
        d < 10,
    ensures
        text::decimal_spec(d).len() == 1 && text::decimal_spec(d)[0] as int == 48 + d,
        n > 0 ==> text::decimal_spec(n * 10 + d) == text::decimal_spec(n) + text::decimal_spec(d),
{
    if n > 0 {
        let m = n * 10 + d;
        assert(m / 10 == n && m % 10 == d);
        assert(text::decimal_spec(m) =~= text::decimal_spec(n) + text::decimal_spec(d));
    }
}

/// The hosts of a network are its addresses but the lowest and the highest, or all of
/// them where there are two or one.
pub proof fn law_hosts_are_the_addresses_within(net: Ipv4Net, ip: Ipv4Addr)
    requires
        net.valid(),
    ensures
        ({
            let size = vstd::arithmetic::power2::pow2((32 - net.prefix) as nat) as int;
            let low = net.addr.bits - net.addr.bits as int % size;
            net.hosts_spec().contains(ip) <==> (if size > 2 {
                low < ip.bits < low + size - 1
            } else {
                low <= ip.bits <= low + size - 1
            })
        }),
{
    let size = addr::block_size(net.prefix) as int;
    vstd::arithmetic::power2::lemma2_to64();
    if net.prefix < 31 {
        vstd::arithmetic::power2::lemma_pow2_strictly_increases(1, (32 - net.prefix) as nat);
        vstd::arithmetic::power2::lemma_pow2_strictly_increases(0, 1);
    }
    assert(size > 2 <==> net.prefix < 31) by {
        if net.prefix == 31 {
            assert(size == 2);
        } else if net.prefix == 32 {
            assert(size == 1);
        } else {
            assert(size > 2);
        }
    }
    vstd::arithmetic::power2::lemma_pow2_pos((32 - net.prefix) as nat);
    vstd::arithmetic::div_mod::lemma_mod_bound(net.addr.bits as int, size);
    let low = net.addr.bits - net.addr.bits as int % size;
    let hosts = net.hosts_spec();
    let first = if net.prefix < 31 {
        low + 1
    } else {
        low
    };
    let last = if net.prefix < 31 {
        low + size - 2
    } else {
        low + size - 1
    };
    if first <= ip.bits <= last {
        assert(hosts[ip.bits - first] == ip);
    }
    if hosts.contains(ip) {
        let k = choose|k: int| 0 <= k < hosts.len() && hosts[k] == ip;
        lemma_block_fits(net);
        assert(ip.bits == first + k);
    }
}

/// A network ends within the addresses there are.
proof fn lemma_block_fits(net: Ipv4Net)
    requires
        net.valid(),
    ensures
        0 <= net.first_spec(),
        net.last_spec() < 0x1_0000_0000,
{
    let n = (32 - net.prefix) as nat;
    let size = vstd::arithmetic::power2::pow2(n) as int;
    let bits = net.addr.bits as int;
    vstd::arithmetic::power2::lemma_pow2_pos(n);
    vstd::arithmetic::power2::lemma2_to64();
    vstd::arithmetic::power2::lemma_pow2_adds(n, net.prefix as nat);
    let many = vstd::arithmetic::power2::pow2(net.prefix as nat) as int;
    assert(size * many == 0x1_0000_0000);
    vstd::arithmetic::div_mod::lemma_fundamental_div_mod(bits, size);
    vstd::arithmetic::div_mod::lemma_mod_bound(bits, size);
    let q = bits / size;
    assert(bits == size * q + bits % size);
    assert(q < many) by (nonlinear_arith)
        requires
            size > 0,
            bits == size * q + bits % size,
            0 <= bits % size,
            bits < size * many,
    ;
    assert(size * q + size <= size * many) by (nonlinear_arith)
        requires
            size > 0,
            q < many,
    ;
    assert(0 <= size * q) by (nonlinear_arith)
        requires
            size > 0,
            bits == size * q + bits % size,
            0 <= bits,
            bits % size < size,
    ;
}

/// Addresses are ordered by their numbers, and those of version four come first.
pub proof fn law_addresses_are_ordered_by_number(a: Ipv4Addr, b: Ipv4Addr, c: Ipv6Addr, d: Ipv6Addr)
    ensures
        IpAddr::V4(a).less_spec(IpAddr::V4(b)) <==> a.bits < b.bits,
        IpAddr::V6(c).less_spec(IpAddr::V6(d)) <==> c.bits < d.bits,
        IpAddr::V4(a).less_spec(IpAddr::V6(c)),
        !IpAddr::V6(c).less_spec(IpAddr::V4(a)),
{
}

} // verus!
