//! IP addresses and IPv4 networks.

pub mod spelled;

use crate::bytes::be16;
use crate::bytes;
use crate::text::{decimal, find_text, nibble, parse_digits, split_char};
use crate::text;
use vstd::prelude::*;

verus! {

/// An IPv4 address, as the number that its four octets spell.
#[derive(Clone, Copy, Debug, PartialEq, Eq, PartialOrd, Ord, Hash, Structural)]
pub struct Ipv4Addr {
    pub bits: u32,
}

/// An IPv6 address, as the number that its eight groups spell.
#[derive(Clone, Copy, Debug, PartialEq, Eq, PartialOrd, Ord, Hash, Structural)]
pub struct Ipv6Addr {
    pub bits: u128,
}

/// An address of either family.
#[derive(Clone, Copy, Debug, PartialEq, Eq, PartialOrd, Ord, Hash, Structural)]
pub enum IpAddr {
    V4(Ipv4Addr),
    V6(Ipv6Addr),
}

/// The number that four octets spell.
pub open spec fn quad_bits(a: u8, b: u8, c: u8, d: u8) -> u32 {
    (a * 0x100_0000 + b * 0x1_0000 + c * 0x100 + d) as u32
}

impl Ipv4Addr {
    /// The address with the given octets.
    pub fn new(a: u8, b: u8, c: u8, d: u8) -> (r: Self)
        ensures
            r.bits == quad_bits(a, b, c, d),
    {
        Ipv4Addr {
            bits: a as u32 * 0x100_0000 + b as u32 * 0x1_0000 + c as u32 * 0x100 + d as u32,
        }
    }

    /// The octet at position `i`, from the left.
    pub open spec fn octet_spec(self, i: int) -> u8 {
        if i == 0 {
            (self.bits / 0x100_0000) as u8
        } else if i == 1 {
            (self.bits / 0x1_0000 % 0x100) as u8
        } else if i == 2 {
            (self.bits / 0x100 % 0x100) as u8
        } else {
            (self.bits % 0x100) as u8
        }
    }

    /// The four octets.
    pub fn octets(&self) -> (r: (u8, u8, u8, u8))
        ensures
            r.0 == self.octet_spec(0),
            r.1 == self.octet_spec(1),
            r.2 == self.octet_spec(2),
            r.3 == self.octet_spec(3),
    {
        (
            (self.bits / 0x100_0000) as u8,
            (self.bits / 0x1_0000 % 0x100) as u8,
            (self.bits / 0x100 % 0x100) as u8,
            (self.bits % 0x100) as u8,
        )
    }

    /// The dotted form of the address.
    pub open spec fn text_spec(self) -> Seq<char> {
        text::join_spec(
            seq![
                text::decimal_spec(self.octet_spec(0) as nat),
                text::decimal_spec(self.octet_spec(1) as nat),
                text::decimal_spec(self.octet_spec(2) as nat),
                text::decimal_spec(self.octet_spec(3) as nat),
            ],
            seq!['.'],
        )
    }

    /// Writes the address in dotted form.
    pub fn text(&self) -> (r: String)
        ensures
            r@ == self.text_spec(),
    {
        let a: u64 = (self.bits / 0x100_0000) as u64;
        let b: u64 = (self.bits / 0x1_0000 % 0x100) as u64;
        let c: u64 = (self.bits / 0x100 % 0x100) as u64;
        let d: u64 = (self.bits % 0x100) as u64;
        let mut out: String = decimal(a);
        out.push('.');
        out.append(decimal(b).as_str());
        out.push('.');
        out.append(decimal(c).as_str());
        out.push('.');
        out.append(decimal(d).as_str());
        proof {
            let p = seq![
                text::decimal_spec(self.octet_spec(0) as nat),
                text::decimal_spec(self.octet_spec(1) as nat),
                text::decimal_spec(self.octet_spec(2) as nat),
                text::decimal_spec(self.octet_spec(3) as nat),
            ];
            let sep = seq!['.'];
            reveal_with_fuel(text::join_spec, 4);
            assert(p.drop_last().drop_last().drop_last()[0] == p[0]);
            assert(p.drop_last().drop_last().last() == p[1]);
            assert(p.drop_last().last() == p[2]);
            assert(out@ =~= p[0] + sep + p[1] + sep + p[2] + sep + p[3]);
        }
        out
    }
}

/// The value of one octet of a dotted address: one to three decimal digits, no
/// leading zero before another digit, at most 255.
pub open spec fn octet_value(s: Seq<char>) -> Option<nat> {
    if 1 <= s.len() <= 3 && (s.len() > 1 ==> s[0] != '0') {
        match text::digits_value(s) {
            Some(v) if v <= 255 => Some(v),
            _ => None,
        }
    } else {
        None
    }
}

/// The address that a dotted text spells.
pub open spec fn parse_ipv4_spec(s: Seq<char>) -> Option<Ipv4Addr> {
    let p = text::split_char_spec(s, '.');
    if p.len() == 4 {
        match (octet_value(p[0]), octet_value(p[1]), octet_value(p[2]), octet_value(p[3])) {
            (Some(a), Some(b), Some(c), Some(d)) => Some(
                Ipv4Addr { bits: quad_bits(a as u8, b as u8, c as u8, d as u8) },
            ),
            _ => None,
        }
    } else {
        None
    }
}

/// Reads one octet of a dotted address.
fn parse_octet(s: &[char]) -> (r: Option<u8>)
    ensures
        match r {
            Some(v) => octet_value(s@) == Some(v as nat),
            None => octet_value(s@) is None,
        },
{
    if s.len() == 0 || s.len() > 3 || (s.len() > 1 && s[0] == '0') {
        return None;
    }
    match parse_digits(s, 255) {
        Some(v) => Some(v as u8),
        None => None,
    }
}

/// Reads a dotted IPv4 address.
pub fn parse_ipv4(s: &[char]) -> (r: Option<Ipv4Addr>)
    ensures
        r == parse_ipv4_spec(s@),
{
    let p = split_char(s, '.');
    let ghost views = text::slice_views(p@);
    if p.len() != 4 {
        return None;
    }
    proof {
        assert(views[0] == p@[0]@);
        assert(views[1] == p@[1]@);
        assert(views[2] == p@[2]@);
        assert(views[3] == p@[3]@);
    }
    match (parse_octet(p[0]), parse_octet(p[1]), parse_octet(p[2]), parse_octet(p[3])) {
        (Some(a), Some(b), Some(c), Some(d)) => Some(Ipv4Addr::new(a, b, c, d)),
        _ => None,
    }
}

/// The group of an IPv6 address at position `i`, from the left.
pub open spec fn groups_spec(bits: u128) -> Seq<u16> {
    seq![
        (bits / 0x1_0000_0000_0000_0000_0000_0000_0000) as u16,
        (bits / 0x1_0000_0000_0000_0000_0000_0000 % 0x1_0000) as u16,
        (bits / 0x1_0000_0000_0000_0000_0000 % 0x1_0000) as u16,
        (bits / 0x1_0000_0000_0000_0000 % 0x1_0000) as u16,
        (bits / 0x1_0000_0000_0000 % 0x1_0000) as u16,
        (bits / 0x1_0000_0000 % 0x1_0000) as u16,
        (bits / 0x1_0000 % 0x1_0000) as u16,
        (bits % 0x1_0000) as u16,
    ]
}

/// The number that eight groups spell.
pub open spec fn groups_bits(g: Seq<u16>) -> u128 {
    (g[0] * 0x1_0000_0000_0000_0000_0000_0000_0000 + g[1] * 0x1_0000_0000_0000_0000_0000_0000 + g[2]
        * 0x1_0000_0000_0000_0000_0000 + g[3] * 0x1_0000_0000_0000_0000 + g[4] * 0x1_0000_0000_0000
        + g[5] * 0x1_0000_0000 + g[6] * 0x1_0000 + g[7]) as u128
}

/// The hexadecimal form of a group, without leading zeros.
pub open spec fn hex_group_spec(v: nat) -> Seq<char>
    decreases v,
{
    if v < 16 {
        seq![text::nibble_char(v as u8)]
    } else {
        hex_group_spec(v / 16).push(text::nibble_char((v % 16) as u8))
    }
}

/// Groups joined by colons.
pub open spec fn hex_groups_spec(g: Seq<u16>) -> Seq<char> {
    text::join_spec(g.map_values(|v: u16| hex_group_spec(v as nat)), seq![':'])
}

/// The number of zero groups in a row that start at `i`.
pub open spec fn zero_run(g: Seq<u16>, i: int) -> int
    decreases g.len() - i,
{
    if 0 <= i < g.len() && g[i] == 0 {
        1 + zero_run(g, i + 1)
    } else {
        0
    }
}

/// The start and length of the first longest run of zero groups among those
/// that start before `n`.
pub open spec fn longest_run(g: Seq<u16>, n: nat) -> (int, int)
    decreases n,
{
    if n == 0 {
        (0, 0)
    } else {
        let best = longest_run(g, (n - 1) as nat);
        let here = zero_run(g, n - 1);
        if here > best.1 {
            (n - 1, here)
        } else {
            best
        }
    }
}

/// The canonical text of an IPv6 address: the first longest run of two or more
/// zero groups is written as two colons, and an address that stands for an IPv4
/// address ends in dotted form.
pub open spec fn ipv6_text_spec(bits: u128) -> Seq<char> {
    let g = groups_spec(bits);
    let run = longest_run(g, 8);
    if bits / 0x1_0000_0000 == 0xffff {
        seq![':', ':', 'f', 'f', 'f', 'f', ':'] + Ipv4Addr {
            bits: (bits % 0x1_0000_0000) as u32,
        }.text_spec()
    } else if run.1 > 1 {
        hex_groups_spec(g.take(run.0)) + seq![':', ':'] + hex_groups_spec(g.skip(run.0 + run.1))
    } else {
        hex_groups_spec(g)
    }
}

/// Appends a group in hexadecimal.
fn push_hex_group(out: &mut String, v: u16)
    ensures
        final(out)@ == old(out)@ + hex_group_spec(v as nat),
    decreases v,
{
    if v >= 16 {
        push_hex_group(out, v / 16);
    }
    let ghost mid = out@;
    out.push(nibble((v % 16) as u8));
    proof {
        if v < 16 {
            assert(out@ =~= old(out)@ + hex_group_spec(v as nat));
        } else {
            assert(out@ =~= old(out)@ + hex_group_spec(v as nat));
        }
    }
}

/// Appends groups joined by colons.
fn push_hex_groups(out: &mut String, g: &[u16])
    ensures
        final(out)@ == old(out)@ + hex_groups_spec(g@),
{
    let ghost parts = g@.map_values(|v: u16| hex_group_spec(v as nat));
    let ghost start = out@;
    let mut i: usize = 0;
    proof {
        assert(start =~= start + text::join_spec(parts.take(0), seq![':']));
    }
    while i < g.len()
        invariant
            i <= g@.len(),
            parts == g@.map_values(|v: u16| hex_group_spec(v as nat)),
            out@ == start + text::join_spec(parts.take(i as int), seq![':']),
        decreases g@.len() - i,
    {
        let ghost so_far = text::join_spec(parts.take(i as int), seq![':']);
        proof {
            assert(parts.take(i + 1).drop_last() =~= parts.take(i as int));
            assert(parts.take(i + 1).last() == parts[i as int]);
        }
        if i > 0 {
            out.push(':');
        }
        push_hex_group(out, g[i]);
        proof {
            if i == 0 {
                assert(out@ =~= start + parts.take(1)[0]);
            } else {
                assert(out@ =~= start + (so_far + seq![':'] + parts[i as int]));
            }
        }
        i = i + 1;
    }
    proof {
        assert(parts.take(g@.len() as int) =~= parts);
    }
}

/// The length of the run of zero groups that starts at `i`.
fn count_zeros(g: &[u16], i: usize) -> (r: usize)
    requires
        i <= g@.len(),
    ensures
        r == zero_run(g@, i as int),
        i + r <= g@.len(),
    decreases g@.len() - i,
{
    if i < g.len() && g[i] == 0 {
        1 + count_zeros(g, i + 1)
    } else {
        0
    }
}

impl Ipv6Addr {
    /// The eight groups of the address.
    pub fn groups(&self) -> (r: Vec<u16>)
        ensures
            r@ == groups_spec(self.bits),
    {
        let b: u128 = self.bits;
        let mut g: Vec<u16> = Vec::new();
        g.push((b / 0x1_0000_0000_0000_0000_0000_0000_0000) as u16);
        g.push((b / 0x1_0000_0000_0000_0000_0000_0000 % 0x1_0000) as u16);
        g.push((b / 0x1_0000_0000_0000_0000_0000 % 0x1_0000) as u16);
        g.push((b / 0x1_0000_0000_0000_0000 % 0x1_0000) as u16);
        g.push((b / 0x1_0000_0000_0000 % 0x1_0000) as u16);
        g.push((b / 0x1_0000_0000 % 0x1_0000) as u16);
        g.push((b / 0x1_0000 % 0x1_0000) as u16);
        g.push((b % 0x1_0000) as u16);
        proof {
            assert(g@ =~= groups_spec(self.bits));
        }
        g
    }

    /// Writes the address in its canonical form.
    pub fn text(&self) -> (r: String)
        ensures
            r@ == ipv6_text_spec(self.bits),
    {
        if self.bits / 0x1_0000_0000 == 0xffff {
            let low = Ipv4Addr { bits: (self.bits % 0x1_0000_0000) as u32 };
            let mut out: String = String::new();
            out.push(':');
            out.push(':');
            out.push('f');
            out.push('f');
            out.push('f');
            out.push('f');
            out.push(':');
            proof {
                assert(out@ =~= seq![':', ':', 'f', 'f', 'f', 'f', ':']);
            }
            out.append(low.text().as_str());
            return out;
        }
        let g = self.groups();
        let mut start: usize = 0;
        let mut len: usize = 0;
        let mut i: usize = 0;
        while i < 8
            invariant
                i <= 8,
                g@.len() == 8,
                longest_run(g@, i as nat) == (start as int, len as int),
                start + len <= 8,
            decreases 8 - i,
        {
            let here: usize = count_zeros(g.as_slice(), i);
            if here > len {
                start = i;
                len = here;
            }
            i = i + 1;
        }
        let mut out: String = String::new();
        if len > 1 {
            let head = vstd::slice::slice_subrange(g.as_slice(), 0, start);
            let tail = vstd::slice::slice_subrange(g.as_slice(), start + len, 8);
            proof {
                assert(head@ =~= g@.take(start as int));
                assert(tail@ =~= g@.skip(start + len));
            }
            push_hex_groups(&mut out, head);
            out.push(':');
            out.push(':');
            push_hex_groups(&mut out, tail);
            proof {
                assert(out@ =~= ipv6_text_spec(self.bits));
            }
        } else {
            push_hex_groups(&mut out, g.as_slice());
            proof {
                assert(out@ =~= hex_groups_spec(g@));
            }
        }
        out
    }
}

/// The value of a hexadecimal digit.
pub open spec fn hex_char_value(c: char) -> nat {
    if '0' <= c <= '9' {
        (c as u32 - 48) as nat
    } else if 'a' <= c <= 'f' {
        (c as u32 - 87) as nat
    } else {
        (c as u32 - 55) as nat
    }
}

/// The value of a hexadecimal text; nothing when it is empty or holds another
/// character.
pub open spec fn hex_value(s: Seq<char>) -> Option<nat>
    decreases s.len(),
{
    if s.len() == 0 {
        None
    } else if !text::is_hex_digit(s.last()) {
        None
    } else if s.len() == 1 {
        Some(hex_char_value(s[0]))
    } else {
        match hex_value(s.drop_last()) {
            Some(v) => Some(v * 16 + hex_char_value(s.last())),
            None => None,
        }
    }
}

/// The value of one group: one to four hexadecimal digits.
pub open spec fn group_value(s: Seq<char>) -> Option<nat> {
    if 1 <= s.len() <= 4 {
        hex_value(s)
    } else {
        None
    }
}

/// The groups that colon-separated pieces spell. The last piece may be a dotted
/// address, which counts as two groups, where that is allowed.
pub open spec fn pieces_groups(p: Seq<Seq<char>>, dotted: bool) -> Option<Seq<u16>>
    decreases p.len(),
{
    if p.len() == 0 {
        Some(seq![])
    } else {
        match group_value(p[0]) {
            Some(v) => match pieces_groups(p.drop_first(), dotted) {
                Some(rest) => Some(seq![v as u16] + rest),
                None => None,
            },
            None => match parse_ipv4_spec(p[0]) {
                Some(a) if dotted && p.len() == 1 => Some(
                    seq![(a.bits / 0x1_0000) as u16, (a.bits % 0x1_0000) as u16],
                ),
                _ => None,
            },
        }
    }
}

/// The groups that a colon-separated text spells; an empty text has none.
pub open spec fn text_groups(s: Seq<char>, dotted: bool) -> Option<Seq<u16>> {
    if s.len() == 0 {
        Some(seq![])
    } else {
        pieces_groups(text::split_char_spec(s, ':'), dotted)
    }
}

/// The address that a text spells: eight groups, or fewer around one pair of
/// colons that stands for the zero groups left out.
pub open spec fn parse_ipv6_spec(s: Seq<char>) -> Option<Ipv6Addr> {
    match text::text_index(s, seq![':', ':']) {
        Some(k) => match (text_groups(s.take(k), false), text_groups(s.skip(k + 2), true)) {
            (Some(head), Some(tail)) => if head.len() + tail.len() <= 7 {
                Some(
                    Ipv6Addr {
                        bits: groups_bits(
                            head + Seq::new(
                                (8 - head.len() - tail.len()) as nat,
                                |i: int| 0u16,
                            ) + tail,
                        ),
                    },
                )
            } else {
                None
            },
            _ => None,
        },
        None => match text_groups(s, true) {
            Some(g) => if g.len() == 8 {
                Some(Ipv6Addr { bits: groups_bits(g) })
            } else {
                None
            },
            None => None,
        },
    }
}

/// Reads one group.
fn parse_group(s: &[char]) -> (r: Option<u16>)
    ensures
        match r {
            Some(v) => group_value(s@) == Some(v as nat),
            None => group_value(s@) is None,
        },
{
    if s.len() == 0 || s.len() > 4 {
        return None;
    }
    let mut value: u32 = 0;
    let mut i: usize = 0;
    while i < s.len()
        invariant
            1 <= s@.len() <= 4,
            i <= s@.len(),
            i == 0 ==> value == 0,
            i == 1 ==> value < 0x10,
            i == 2 ==> value < 0x100,
            i == 3 ==> value < 0x1000,
            i == 4 ==> value < 0x1_0000,
            i > 0 ==> hex_value(s@.take(i as int)) == Some(value as nat),
        decreases s@.len() - i,
    {
        let ghost next = s@.take(i + 1);
        proof {
            assert(next.drop_last() =~= s@.take(i as int));
        }
        let c: char = s[i];
        let v: u32 = c as u32;
        let d: u32 = if '0' <= c && c <= '9' {
            v - 48
        } else if 'a' <= c && c <= 'f' {
            v - 87
        } else if 'A' <= c && c <= 'F' {
            v - 55
        } else {
            proof {
                lemma_hex_value_prefix(s@, i + 1);
            }
            return None;
        };
        value = value * 16 + d;
        i = i + 1;
    }
    proof {
        assert(s@.take(s@.len() as int) =~= s@);
    }
    Some(value as u16)
}

/// A hexadecimal text has a value only if each of its prefixes does.
proof fn lemma_hex_value_prefix(s: Seq<char>, i: int)
    requires
        0 < i <= s.len(),
    ensures
        hex_value(s) is Some ==> hex_value(s.take(i)) is Some,
    decreases s.len(),
{
    if i == s.len() {
        assert(s.take(i) =~= s);
    } else {
        lemma_hex_value_prefix(s.drop_last(), i);
        assert(s.drop_last().take(i) =~= s.take(i));
    }
}

/// What becomes of the groups still to be read, once those before are put in front.
spec fn prepend(head: Seq<u16>, rest: Option<Seq<u16>>) -> Option<Seq<u16>> {
    match rest {
        Some(r) => Some(head + r),
        None => None,
    }
}

/// The view of an optional list of groups.
pub open spec fn groups_opt(o: Option<Vec<u16>>) -> Option<Seq<u16>> {
    match o {
        Some(v) => Some(v@),
        None => None,
    }
}

/// Reads colon-separated groups.
fn parse_groups(s: &[char], dotted: bool) -> (r: Option<Vec<u16>>)
    ensures
        groups_opt(r) == text_groups(s@, dotted),
{
    let mut out: Vec<u16> = Vec::new();
    if s.len() == 0 {
        return Some(out);
    }
    let p = split_char(s, ':');
    let ghost views = text::slice_views(p@);
    let mut i: usize = 0;
    proof {
        assert(views.skip(0) =~= views);
        let rest = pieces_groups(views, dotted);
        if rest is Some {
            assert(out@ + rest->0 =~= rest->0);
        }
    }
    while i < p.len()
        invariant
            i <= p@.len(),
            views == text::slice_views(p@),
            pieces_groups(views, dotted) == prepend(
                out@,
                pieces_groups(views.skip(i as int), dotted),
            ),
            s@.len() > 0,
            views == text::split_char_spec(s@, ':'),
        decreases p@.len() - i,
    {
        let ghost rest = views.skip(i as int);
        let ghost before = out@;
        proof {
            assert(rest[0] == p@[i as int]@);
            assert(rest.drop_first() =~= views.skip(i + 1));
        }
        match parse_group(p[i]) {
            Some(v) => {
                out.push(v);
                proof {
                    let tail = pieces_groups(rest.drop_first(), dotted);
                    if tail is Some {
                        assert(before + (seq![v] + tail->0) =~= before.push(v) + tail->0);
                    }
                }
            },
            None => {
                if dotted && i + 1 == p.len() {
                    match parse_ipv4(p[i]) {
                        Some(a) => {
                            out.push((a.bits / 0x1_0000) as u16);
                            out.push((a.bits % 0x1_0000) as u16);
                            proof {
                                assert(out@ =~= before + seq![
                                    (a.bits / 0x1_0000) as u16,
                                    (a.bits % 0x1_0000) as u16,
                                ]);
                            }
                            return Some(out);
                        },
                        None => {
                            return None;
                        },
                    }
                }
                return None;
            },
        }
        i = i + 1;
    }
    proof {
        assert(views.skip(i as int).len() == 0);
        assert(out@ + Seq::<u16>::empty() =~= out@);
    }
    Some(out)
}

/// The address with the given eight groups.
fn from_groups(g: &Vec<u16>) -> (r: Ipv6Addr)
    requires
        g@.len() == 8,
    ensures
        r.bits == groups_bits(g@),
{
    Ipv6Addr {
        bits: g[0] as u128 * 0x1_0000_0000_0000_0000_0000_0000_0000 + g[1] as u128
            * 0x1_0000_0000_0000_0000_0000_0000 + g[2] as u128 * 0x1_0000_0000_0000_0000_0000
            + g[3] as u128 * 0x1_0000_0000_0000_0000 + g[4] as u128 * 0x1_0000_0000_0000 + g[5] as u128
            * 0x1_0000_0000 + g[6] as u128 * 0x1_0000 + g[7] as u128,
    }
}

/// Reads an IPv6 address.
pub fn parse_ipv6(s: &[char]) -> (r: Option<Ipv6Addr>)
    ensures
        r == parse_ipv6_spec(s@),
{
    proof {
        reveal_strlit("::");
        assert("::"@ =~= seq![':', ':']);
    }
    let n: usize = s.len();
    match find_text(s, "::") {
        Some(k) => {
            let head = parse_groups(vstd::slice::slice_subrange(s, 0, k), false);
            let tail = parse_groups(vstd::slice::slice_subrange(s, k + 2, n), true);
            proof {
                assert(s@.subrange(0, k as int) =~= s@.take(k as int));
                assert(s@.subrange(k + 2, s@.len() as int) =~= s@.skip(k + 2));
            }
            match (head, tail) {
                (Some(head), Some(tail)) => {
                    let ghost h = head@;
                    if head.len() > 7 || tail.len() > 7 || head.len() + tail.len() > 7 {
                        return None;
                    }
                    let mut all: Vec<u16> = head;
                    while all.len() + tail.len() < 8
                        invariant
                            h.len() <= all@.len(),
                            all@.len() + tail@.len() <= 8,
                            all@ == h + Seq::new((all@.len() - h.len()) as nat, |i: int| 0u16),
                        decreases 8 - all@.len(),
                    {
                        all.push(0);
                        proof {
                            assert(all@ =~= h + Seq::new(
                                (all@.len() - h.len()) as nat,
                                |i: int| 0u16,
                            ));
                        }
                    }
                    let mut rest: Vec<u16> = tail;
                    all.append(&mut rest);
                    Some(from_groups(&all))
                },
                _ => None,
            }
        },
        None => match parse_groups(s, true) {
            Some(g) => if g.len() == 8 {
                Some(from_groups(&g))
            } else {
                None
            },
            None => None,
        },
    }
}

impl IpAddr {
    /// The text of the address.
    pub open spec fn text_spec(self) -> Seq<char> {
        match self {
            IpAddr::V4(a) => a.text_spec(),
            IpAddr::V6(a) => ipv6_text_spec(a.bits),
        }
    }

    /// Writes the address.
    pub fn text(&self) -> (r: String)
        ensures
            r@ == self.text_spec(),
    {
        match self {
            IpAddr::V4(a) => a.text(),
            IpAddr::V6(a) => a.text(),
        }
    }

    /// `self` comes before `other`: IPv4 first, then by number.
    pub open spec fn less_spec(self, other: IpAddr) -> bool {
        match (self, other) {
            (IpAddr::V4(a), IpAddr::V4(b)) => a.bits < b.bits,
            (IpAddr::V4(_), IpAddr::V6(_)) => true,
            (IpAddr::V6(_), IpAddr::V4(_)) => false,
            (IpAddr::V6(a), IpAddr::V6(b)) => a.bits < b.bits,
        }
    }

    /// Reports whether `self` comes before `other`.
    pub fn less(&self, other: &IpAddr) -> (r: bool)
        ensures
            r == self.less_spec(*other),
    {
        match (self, other) {
            (IpAddr::V4(a), IpAddr::V4(b)) => a.bits < b.bits,
            (IpAddr::V4(_), IpAddr::V6(_)) => true,
            (IpAddr::V6(_), IpAddr::V4(_)) => false,
            (IpAddr::V6(a), IpAddr::V6(b)) => a.bits < b.bits,
        }
    }
}

/// The address of either family that a text spells.
pub open spec fn parse_ip_spec(s: Seq<char>) -> Option<IpAddr> {
    match parse_ipv4_spec(s) {
        Some(a) => Some(IpAddr::V4(a)),
        None => match parse_ipv6_spec(s) {
            Some(a) => Some(IpAddr::V6(a)),
            None => None,
        },
    }
}

/// Reads an address of either family.
pub fn parse_ip(s: &[char]) -> (r: Option<IpAddr>)
    ensures
        r == parse_ip_spec(s@),
{
    match parse_ipv4(s) {
        Some(a) => Some(IpAddr::V4(a)),
        None => match parse_ipv6(s) {
            Some(a) => Some(IpAddr::V6(a)),
            None => None,
        },
    }
}

/// An IPv4 network in CIDR notation: an address and the length of its prefix.
#[derive(Clone, Copy, Debug, PartialEq, Eq, PartialOrd, Ord, Hash, Structural)]
pub struct Ipv4Net {
    pub addr: Ipv4Addr,
    pub prefix: u8,
}

/// The number of addresses under a prefix of the given length.
pub open spec fn block_size(prefix: u8) -> nat {
    vstd::arithmetic::power2::pow2((32 - prefix) as nat)
}

/// The address, and the prefix length, that a text in CIDR notation spells: four
/// octets of one to three digits, a slash, and one or two digits that spell at
/// most 32.
pub open spec fn cidr_spec(s: Seq<char>) -> Option<(u32, u8)> {
    let parts = text::split_char_spec(s, '/');
    if parts.len() == 2 && 1 <= parts[1].len() <= 2 {
        match (quad_spec(parts[0]), text::digits_value(parts[1])) {
            (Some(bits), Some(prefix)) => if prefix <= 32 {
                Some((bits, prefix as u8))
            } else {
                None
            },
            _ => None,
        }
    } else {
        None
    }
}

/// The number that four dotted octets spell, each of one to three digits with a
/// value of at most 255.
pub open spec fn quad_spec(s: Seq<char>) -> Option<u32> {
    let p = text::split_char_spec(s, '.');
    if p.len() == 4 && (forall|i: int|
        0 <= i < 4 ==> 1 <= (#[trigger] p[i]).len() <= 3 && text::digits_value(p[i]) is Some
            && text::digits_value(p[i])->0 <= 255) {
        Some(
            quad_bits(
                text::digits_value(p[0])->0 as u8,
                text::digits_value(p[1])->0 as u8,
                text::digits_value(p[2])->0 as u8,
                text::digits_value(p[3])->0 as u8,
            ),
        )
    } else {
        None
    }
}

/// Parsing a text as `ipnet::Ipv4Net` accepts the CIDR notation that `cidr_spec`
/// describes and gives back its address, host part and all, and prefix length.
#[verifier::external_body]
pub(crate) fn ipnet_parse(s: &str) -> (r: Option<(u32, u8)>)
    ensures
        r == cidr_spec(s@),
{
    s.parse::<ipnet::Ipv4Net>().ok().map(|net| (net.addr().into(), net.prefix_len()))
}

/// `ipnet::Ipv4Net::network` clears the host part of the address.
#[verifier::external_body]
pub(crate) fn ipnet_network(bits: u32, prefix: u8) -> (r: u32)
    requires
        prefix <= 32,
    ensures
        r == bits - bits as int % block_size(prefix) as int,
{
    ipnet::Ipv4Net::new_assert(bits.into(), prefix).network().into()
}

/// `ipnet::Ipv4Net::broadcast` sets every bit of the host part of the address.
#[verifier::external_body]
pub(crate) fn ipnet_broadcast(bits: u32, prefix: u8) -> (r: u32)
    requires
        prefix <= 32,
    ensures
        r == bits - bits as int % block_size(prefix) as int + block_size(prefix) - 1,
{
    ipnet::Ipv4Net::new_assert(bits.into(), prefix).broadcast().into()
}

impl Ipv4Net {
    /// The prefix is one of an IPv4 network.
    pub open spec fn valid(self) -> bool {
        self.prefix <= 32
    }

    /// The lowest address of the network.
    pub open spec fn first_spec(self) -> int {
        self.addr.bits - self.addr.bits as int % block_size(self.prefix) as int
    }

    /// The highest address of the network.
    pub open spec fn last_spec(self) -> int {
        self.first_spec() + block_size(self.prefix) - 1
    }

    /// The network with the host part of its address cleared.
    pub open spec fn network_spec(self) -> Ipv4Net {
        Ipv4Net { addr: Ipv4Addr { bits: self.first_spec() as u32 }, prefix: self.prefix }
    }

    /// The address lies in the network.
    pub open spec fn contains_spec(self, ip: Ipv4Addr) -> bool {
        self.first_spec() <= ip.bits <= self.last_spec()
    }

    /// The network in CIDR notation.
    pub open spec fn text_spec(self) -> Seq<char> {
        self.addr.text_spec() + seq!['/'] + text::decimal_spec(self.prefix as nat)
    }

    /// The addresses that hosts of the network can have: all but the lowest and
    /// the highest, or all of them where the prefix leaves two addresses or one.
    pub open spec fn hosts_spec(self) -> Seq<Ipv4Addr> {
        let first = if self.prefix < 31 {
            self.first_spec() + 1
        } else {
            self.first_spec()
        };
        let last = if self.prefix < 31 {
            self.last_spec() - 1
        } else {
            self.last_spec()
        };
        Seq::new((last - first + 1) as nat, |i: int| Ipv4Addr { bits: (first + i) as u32 })
    }

    /// The network in normal form.
    pub fn network(&self) -> (r: Ipv4Net)
        requires
            self.valid(),
        ensures
            r == self.network_spec(),
            r.valid(),
    {
        Ipv4Net {
            addr: Ipv4Addr { bits: ipnet_network(self.addr.bits, self.prefix) },
            prefix: self.prefix,
        }
    }

    /// Reports whether the address lies in the network.
    pub fn contains(&self, ip: Ipv4Addr) -> (r: bool)
        requires
            self.valid(),
        ensures
            r == self.contains_spec(ip),
    {
        ipnet_network(self.addr.bits, self.prefix) <= ip.bits && ip.bits <= ipnet_broadcast(
            self.addr.bits,
            self.prefix,
        )
    }

    /// Lists the addresses that hosts of the network can have.
    pub fn hosts(&self) -> (r: Vec<Ipv4Addr>)
        requires
            self.valid(),
        ensures
            r@ == self.hosts_spec(),
    {
        let low: u32 = ipnet_network(self.addr.bits, self.prefix);
        let high: u32 = ipnet_broadcast(self.addr.bits, self.prefix);
        proof {
            vstd::arithmetic::power2::lemma_pow2_pos((32 - self.prefix) as nat);
            if self.prefix < 31 {
                vstd::arithmetic::power2::lemma_pow2_strictly_increases(
                    1,
                    (32 - self.prefix) as nat,
                );
                vstd::arithmetic::power2::lemma2_to64();
            }
        }
        let first: u64 = if self.prefix < 31 {
            low as u64 + 1
        } else {
            low as u64
        };
        let end: u64 = if self.prefix < 31 {
            high as u64
        } else {
            high as u64 + 1
        };
        let mut out: Vec<Ipv4Addr> = Vec::new();
        let mut next: u64 = first;
        while next < end
            invariant
                first <= next <= end,
                end <= 0x1_0000_0000,
                out@ == Seq::new(
                    (next - first) as nat,
                    |i: int| Ipv4Addr { bits: (first + i) as u32 },
                ),
            decreases end - next,
        {
            out.push(Ipv4Addr { bits: next as u32 });
            next = next + 1;
            proof {
                assert(out@ =~= Seq::new(
                    (next - first) as nat,
                    |i: int| Ipv4Addr { bits: (first + i) as u32 },
                ));
            }
        }
        proof {
            assert(out@ =~= self.hosts_spec());
        }
        out
    }

    /// Writes the network in CIDR notation.
    pub fn text(&self) -> (r: String)
        ensures
            r@ == self.text_spec(),
    {
        let mut out: String = self.addr.text();
        out.push('/');
        out.append(decimal(self.prefix as u64).as_str());
        proof {
            assert(out@ =~= self.text_spec());
        }
        out
    }
}

/// Normalizing a network a second time changes nothing.
pub proof fn law_network_is_idempotent(net: Ipv4Net)
    requires
        net.valid(),
    ensures
        net.network_spec().network_spec() == net.network_spec(),
{
    let size = block_size(net.prefix) as int;
    vstd::arithmetic::power2::lemma_pow2_pos((32 - net.prefix) as nat);
    let bits = net.addr.bits as int;
    assert(0 <= bits % size <= bits && (bits - bits % size) % size == 0) by (nonlinear_arith)
        requires
            size > 0,
            bits >= 0,
    {
        vstd::arithmetic::div_mod::lemma_fundamental_div_mod(bits, size);
        vstd::arithmetic::div_mod::lemma_mod_multiples_basic(bits / size, size);
        vstd::arithmetic::div_mod::lemma_mod_bound(bits, size);
        vstd::arithmetic::div_mod::lemma_mod_decreases(bits as nat, size as nat);
    }
}

/// The four octets of an address in dotted form are its parts.
proof fn lemma_dotted_parts(ip: Ipv4Addr)
    ensures
        text::split_char_spec(ip.text_spec(), '.') == seq![
            text::decimal_spec(ip.octet_spec(0) as nat),
            text::decimal_spec(ip.octet_spec(1) as nat),
            text::decimal_spec(ip.octet_spec(2) as nat),
            text::decimal_spec(ip.octet_spec(3) as nat),
        ],
        !ip.text_spec().contains('/'),
        !ip.text_spec().contains(':'),
        ip.text_spec().len() >= 7,
{
    let a = text::decimal_spec(ip.octet_spec(0) as nat);
    let b = text::decimal_spec(ip.octet_spec(1) as nat);
    let c = text::decimal_spec(ip.octet_spec(2) as nat);
    let d = text::decimal_spec(ip.octet_spec(3) as nat);
    let p = seq![a, b, c, d];
    let dot = seq!['.'];
    text::law_decimal_reads_back(ip.octet_spec(0) as nat);
    text::law_decimal_reads_back(ip.octet_spec(1) as nat);
    text::law_decimal_reads_back(ip.octet_spec(2) as nat);
    text::law_decimal_reads_back(ip.octet_spec(3) as nat);
    let s = ip.text_spec();
    assert(s =~= a + dot + (b + dot + (c + dot + d))) by {
        reveal_with_fuel(text::join_spec, 4);
        assert(p.drop_last().drop_last().drop_last()[0] == a);
        assert(p.drop_last().drop_last().last() == b);
        assert(p.drop_last().last() == c);
    }
    text::lemma_split_front(a, b + dot + (c + dot + d), '.');
    text::lemma_split_front(b, c + dot + d, '.');
    text::lemma_split_front(c, d, '.');
    text::lemma_split_whole(d, '.');
    assert(text::split_char_spec(s, '.') =~= p);
}

/// The octets of an address spell the address.
proof fn lemma_octets_spell(ip: Ipv4Addr)
    ensures
        quad_bits(ip.octet_spec(0), ip.octet_spec(1), ip.octet_spec(2), ip.octet_spec(3))
            == ip.bits,
{
    let bits = ip.bits;
    let high = bits / 0x1_0000;
    let low = bits % 0x1_0000;
    assert(bits == high * 0x1_0000 + low);
    assert(bits / 0x100_0000 == high / 0x100);
    assert(bits / 0x100 % 0x100 == low / 0x100);
    assert(bits % 0x100 == low % 0x100);
    assert(high == high / 0x100 * 0x100 + high % 0x100);
    assert(low == low / 0x100 * 0x100 + low % 0x100);
}

/// The dotted form of an IPv4 address reads back as that address.
pub proof fn law_ipv4_text_reads_back(ip: Ipv4Addr)
    ensures
        parse_ipv4_spec(ip.text_spec()) == Some(ip),
        quad_spec(ip.text_spec()) == Some(ip.bits),
{
    lemma_dotted_parts(ip);
    text::law_decimal_reads_back(ip.octet_spec(0) as nat);
    text::law_decimal_reads_back(ip.octet_spec(1) as nat);
    text::law_decimal_reads_back(ip.octet_spec(2) as nat);
    text::law_decimal_reads_back(ip.octet_spec(3) as nat);
    lemma_octets_spell(ip);
    let p = text::split_char_spec(ip.text_spec(), '.');
    assert(octet_value(p[0]) == Some(ip.octet_spec(0) as nat));
    assert(octet_value(p[1]) == Some(ip.octet_spec(1) as nat));
    assert(octet_value(p[2]) == Some(ip.octet_spec(2) as nat));
    assert(octet_value(p[3]) == Some(ip.octet_spec(3) as nat));
}

/// A group in hexadecimal reads back, and holds lower-case digits alone.
proof fn lemma_group_reads_back(v: nat)
    ensures
        hex_value(hex_group_spec(v)) == Some(v),
        forall|i: int|
            0 <= i < hex_group_spec(v).len() ==> text::is_hex_digit(#[trigger] hex_group_spec(v)[i]),
        hex_group_spec(v).len() > 0,
        v < 0x10 ==> hex_group_spec(v).len() == 1,
        v < 0x100 ==> hex_group_spec(v).len() <= 2,
        v < 0x1000 ==> hex_group_spec(v).len() <= 3,
        v < 0x1_0000 ==> hex_group_spec(v).len() <= 4,
    decreases v,
{
    let s = hex_group_spec(v);
    if v < 16 {
        assert(s =~= seq![text::nibble_char(v as u8)]);
    } else {
        lemma_group_reads_back(v / 16);
        let front = hex_group_spec(v / 16);
        assert(s.drop_last() =~= front);
        assert(s.last() == text::nibble_char((v % 16) as u8));
        assert forall|i: int| 0 <= i < s.len() implies text::is_hex_digit(#[trigger] s[i]) by {
            if i < front.len() {
                assert(s[i] == front[i]);
            }
        }
    }
}

/// The texts of groups.
spec fn group_texts(g: Seq<u16>) -> Seq<Seq<char>> {
    g.map_values(|v: u16| hex_group_spec(v as nat))
}

/// No two colons stand next to each other, and none at either end.
spec fn single_colons(s: Seq<char>) -> bool {
    &&& s.len() > 0 ==> s[0] != ':' && s.last() != ':'
    &&& forall|i: int| 0 <= i < s.len() - 1 ==> #[trigger] s[i] != ':' || s[i + 1] != ':'
}

/// Groups joined by colons have single colons.
proof fn lemma_groups_single_colons(g: Seq<u16>)
    ensures
        single_colons(hex_groups_spec(g)),
        g.len() > 0 ==> hex_groups_spec(g).len() > 0,
    decreases g.len(),
{
    let parts = group_texts(g);
    let s = hex_groups_spec(g);
    if g.len() > 0 {
        let front = g.drop_last();
        lemma_groups_single_colons(front);
        lemma_group_reads_back(g.last() as nat);
        let last = hex_group_spec(g.last() as nat);
        assert(parts.drop_last() =~= group_texts(front));
        assert(parts.last() == last);
        let before = hex_groups_spec(front);
        if g.len() == 1 {
            assert(s == last);
        } else {
            assert(s == before + seq![':'] + last);
        }
        assert forall|i: int| 0 <= i < s.len() - 1 implies #[trigger] s[i] != ':' || s[i + 1]
            != ':' by {
            if g.len() > 1 {
                let n = before.len();
                if i < n {
                    assert(s[i] == before[i]);
                    if i + 1 < n {
                        assert(s[i + 1] == before[i + 1]);
                    }
                } else if i == n {
                    assert(s[i + 1] == last[0]);
                } else {
                    assert(s[i] == last[i - n - 1]);
                }
            } else {
                assert(s[i] == last[i]);
            }
        }
        assert(s.last() == last.last());
        assert(s.last() == last[last.len() - 1]);
        if g.len() == 1 {
            assert(s[0] == last[0]);
        } else {
            assert(s[0] == before[0]);
        }
    }
}

/// The texts of groups read back as the groups.
proof fn lemma_pieces_read_back(g: Seq<u16>, dotted: bool)
    ensures
        pieces_groups(group_texts(g), dotted) == Some(g),
    decreases g.len(),
{
    let p = group_texts(g);
    if g.len() == 0 {
        assert(g =~= seq![]);
    } else {
        lemma_group_reads_back(g[0] as nat);
        lemma_pieces_read_back(g.drop_first(), dotted);
        assert(p.drop_first() =~= group_texts(g.drop_first()));
        assert(seq![g[0]] + g.drop_first() =~= g);
    }
}

/// Groups joined by colons read back as the groups.
proof fn lemma_groups_read_back(g: Seq<u16>, dotted: bool)
    ensures
        text_groups(hex_groups_spec(g), dotted) == Some(g),
{
    lemma_groups_single_colons(g);
    if g.len() == 0 {
        assert(g =~= seq![]);
    } else {
        let p = group_texts(g);
        assert forall|i: int| 0 <= i < p.len() implies !(#[trigger] p[i]).contains(':') by {
            lemma_group_reads_back(g[i] as nat);
        }
        text::law_split_undoes_join(p, ':');
        lemma_pieces_read_back(g, dotted);
    }
}

/// The run of zero groups at a position.
proof fn lemma_zero_run(g: Seq<u16>, i: int)
    requires
        0 <= i <= g.len(),
    ensures
        0 <= zero_run(g, i) <= g.len() - i,
        forall|j: int| i <= j < i + zero_run(g, i) ==> #[trigger] g[j] == 0,
    decreases g.len() - i,
{
    if i < g.len() && g[i] == 0 {
        lemma_zero_run(g, i + 1);
    }
}

/// The longest run is a run of zero groups.
proof fn lemma_longest_run(g: Seq<u16>, n: nat)
    requires
        n <= g.len(),
    ensures
        ({
            let run = longest_run(g, n);
            &&& 0 <= run.0 && 0 <= run.1 && run.0 + run.1 <= g.len()
            &&& forall|j: int| run.0 <= j < run.0 + run.1 ==> #[trigger] g[j] == 0
        }),
    decreases n,
{
    if n > 0 {
        lemma_longest_run(g, (n - 1) as nat);
        lemma_zero_run(g, n - 1);
    }
}

/// The groups of an address spell the address.
proof fn lemma_groups_spell(bits: u128)
    ensures
        groups_bits(groups_spec(bits)) == bits,
{
    let q0 = bits as int;
    let q1 = q0 / 0x1_0000;
    let q2 = q1 / 0x1_0000;
    let q3 = q2 / 0x1_0000;
    let q4 = q3 / 0x1_0000;
    let q5 = q4 / 0x1_0000;
    let q6 = q5 / 0x1_0000;
    let q7 = q6 / 0x1_0000;
    assert(q0 / 0x1_0000_0000 == q2);
    assert(q0 / 0x1_0000_0000_0000 == q3);
    assert(q0 / 0x1_0000_0000_0000_0000 == q4);
    assert(q0 / 0x1_0000_0000_0000_0000_0000 == q5);
    assert(q0 / 0x1_0000_0000_0000_0000_0000_0000 == q6);
    assert(q0 / 0x1_0000_0000_0000_0000_0000_0000_0000 == q7);
    assert(q0 == q1 * 0x1_0000 + q0 % 0x1_0000);
    assert(q1 == q2 * 0x1_0000 + q1 % 0x1_0000);
    assert(q2 == q3 * 0x1_0000 + q2 % 0x1_0000);
    assert(q3 == q4 * 0x1_0000 + q3 % 0x1_0000);
    assert(q4 == q5 * 0x1_0000 + q4 % 0x1_0000);
    assert(q5 == q6 * 0x1_0000 + q5 % 0x1_0000);
    assert(q6 == q7 * 0x1_0000 + q6 % 0x1_0000);
    let g = groups_spec(bits);
    assert(g[0] == q7 && g[1] == q6 % 0x1_0000 && g[2] == q5 % 0x1_0000 && g[3] == q4 % 0x1_0000);
    assert(g[4] == q3 % 0x1_0000 && g[5] == q2 % 0x1_0000 && g[6] == q1 % 0x1_0000 && g[7] == q0
        % 0x1_0000);
}

/// Two colons between texts with single colons are found where they stand.
proof fn lemma_gap_found(head: Seq<char>, tail: Seq<char>)
    requires
        single_colons(head),
    ensures
        text::text_index(head + seq![':', ':'] + tail, seq![':', ':']) == Some(head.len() as int),
{
    let gap = seq![':', ':'];
    let s = head + gap + tail;
    let k = head.len() as int;
    assert(s.subrange(k, k + 2) =~= gap);
    assert forall|j: int| 0 <= j < k implies #[trigger] s.subrange(j, j + gap.len()) != gap by {
        let piece = s.subrange(j, j + 2);
        assert(piece[0] == head[j]);
        if j + 1 < k {
            assert(piece[1] == head[j + 1]);
        } else {
            assert(head[j] == head.last());
        }
    }
    text::lemma_first_occurrence(s, gap, k);
}

/// A text with single colons has no gap.
proof fn lemma_no_gap(s: Seq<char>)
    requires
        single_colons(s),
    ensures
        text::text_index(s, seq![':', ':']) is None,
{
    let gap = seq![':', ':'];
    text::lemma_text_index(s, gap);
    if text::text_index(s, gap) is Some {
        let k = text::text_index(s, gap)->0;
        let piece = s.subrange(k, k + 2);
        assert(piece[0] == s[k] && piece[1] == s[k + 1]);
    }
}

/// The text of an address that stands for an IPv4 address reads back.
proof fn lemma_mapped_reads_back(bits: u128)
    requires
        bits / 0x1_0000_0000 == 0xffff,
    ensures
        parse_ipv6_spec(ipv6_text_spec(bits)) == Some(Ipv6Addr { bits }),
{
    let low = Ipv4Addr { bits: (bits % 0x1_0000_0000) as u32 };
    let dotted = low.text_spec();
    let empty = Seq::<char>::empty();
    let word = seq!['f', 'f', 'f', 'f'];
    let tail = word + seq![':'] + dotted;
    let s = ipv6_text_spec(bits);
    assert(s =~= empty + seq![':', ':'] + tail);
    lemma_gap_found(empty, tail);
    assert(s.take(0) =~= empty);
    assert(s.skip(2) =~= tail);
    lemma_dotted_parts(low);
    law_ipv4_text_reads_back(low);
    assert(!word.contains(':'));
    text::lemma_split_front(word, dotted, ':');
    text::lemma_split_whole(dotted, ':');
    let p = seq![word, dotted];
    assert(text::split_char_spec(tail, ':') =~= p);
    assert(hex_value(word) == Some(0xffffnat)) by {
        reveal_with_fuel(hex_value, 4);
        assert(word.drop_last().drop_last().drop_last().len() == 1);
    }
    let rest = p.drop_first();
    assert(rest =~= seq![dotted]);
    assert(group_value(dotted) is None);
    let high = (low.bits / 0x1_0000) as u16;
    let bottom = (low.bits % 0x1_0000) as u16;
    assert(pieces_groups(rest, true) == Some(seq![high, bottom]));
    let found = seq![0xffffu16] + seq![high, bottom];
    assert(pieces_groups(p, true) == Some(found));
    assert(text_groups(tail, true) == Some(found));
    let none = Seq::<u16>::empty();
    assert(text_groups(empty, false) == Some(none));
    let g = none + Seq::new(5, |i: int| 0u16) + found;
    assert(parse_ipv6_spec(s) == Some(Ipv6Addr { bits: groups_bits(g) }));
    assert(g[0] == 0 && g[1] == 0 && g[2] == 0 && g[3] == 0 && g[4] == 0);
    assert(g[5] == 0xffff && g[6] == high && g[7] == bottom);
    assert(low.bits == high * 0x1_0000 + bottom);
    assert(groups_bits(g) == bits);
}

/// The canonical text of an IPv6 address reads back as that address.
pub proof fn law_ipv6_text_reads_back(ip: Ipv6Addr)
    ensures
        parse_ipv6_spec(ipv6_text_spec(ip.bits)) == Some(ip),
{
    let g = groups_spec(ip.bits);
    let run = longest_run(g, 8);
    let s = ipv6_text_spec(ip.bits);
    lemma_groups_spell(ip.bits);
    if ip.bits / 0x1_0000_0000 == 0xffff {
        lemma_mapped_reads_back(ip.bits);
    } else if run.1 > 1 {
        lemma_longest_run(g, 8);
        let head = g.take(run.0);
        let tail = g.skip(run.0 + run.1);
        lemma_groups_single_colons(head);
        lemma_gap_found(hex_groups_spec(head), hex_groups_spec(tail));
        let k = hex_groups_spec(head).len() as int;
        assert(s.take(k) =~= hex_groups_spec(head));
        assert(s.skip(k + 2) =~= hex_groups_spec(tail));
        lemma_groups_read_back(head, false);
        lemma_groups_read_back(tail, true);
        let zeros = Seq::new((8 - head.len() - tail.len()) as nat, |i: int| 0u16);
        assert(head + zeros + tail =~= g);
    } else {
        lemma_groups_single_colons(g);
        lemma_no_gap(s);
        lemma_groups_read_back(g, true);
    }
}

/// The text of an IPv6 address is no dotted form: it holds a colon.
proof fn lemma_no_dotted_form(ip: Ipv6Addr)
    ensures
        parse_ipv4_spec(ipv6_text_spec(ip.bits)) is None,
{
    let s = ipv6_text_spec(ip.bits);
    let g = groups_spec(ip.bits);
    let run = longest_run(g, 8);
    assert(s.contains(':')) by {
        if ip.bits / 0x1_0000_0000 == 0xffff {
            assert(s[0] == ':');
        } else if run.1 > 1 {
            assert(s[hex_groups_spec(g.take(run.0)).len() as int] == ':');
        } else {
            let parts = group_texts(g);
            assert(s == text::join_spec(parts.drop_last(), seq![':']) + seq![':'] + parts.last());
            assert(s[text::join_spec(parts.drop_last(), seq![':']).len() as int] == ':');
        }
    }
    if parse_ipv4_spec(s) is Some {
        text::lemma_split_covers(s, '.', ':');
        let p = text::split_char_spec(s, '.');
        let i = choose|i: int| 0 <= i < p.len() && (#[trigger] p[i]).contains(':');
        assert(octet_value(p[i]) is Some);
        text::lemma_digits_alone(p[i], ':');
    }
}

/// An address of either family reads back from its text.
pub proof fn law_address_text_reads_back(ip: IpAddr)
    ensures
        parse_ip_spec(ip.text_spec()) == Some(ip),
{
    match ip {
        IpAddr::V4(a) => {
            law_ipv4_text_reads_back(a);
        },
        IpAddr::V6(a) => {
            law_ipv6_text_reads_back(a);
            lemma_no_dotted_form(a);
        },
    }
}

/// A network in CIDR notation reads back with the same address and prefix.
pub proof fn law_network_text_reads_back(net: Ipv4Net)
    requires
        net.valid(),
    ensures
        cidr_spec(net.text_spec()) == Some((net.addr.bits, net.prefix)),
{
    let address = net.addr.text_spec();
    let prefix = text::decimal_spec(net.prefix as nat);
    lemma_dotted_parts(net.addr);
    law_ipv4_text_reads_back(net.addr);
    text::law_decimal_reads_back(net.prefix as nat);
    text::lemma_split_front(address, prefix, '/');
    text::lemma_split_whole(prefix, '/');
    assert(text::split_char_spec(net.text_spec(), '/') =~= seq![address, prefix]);
}

/// The texts of a list of addresses.
pub open spec fn address_texts_spec(a: Seq<IpAddr>) -> Seq<Seq<char>> {
    a.map_values(|ip: IpAddr| ip.text_spec())
}

/// Writes a list of addresses.
pub fn address_texts(a: &Vec<IpAddr>) -> (r: Vec<String>)
    ensures
        r.deep_view() == address_texts_spec(a@),
{
    let mut out: Vec<String> = Vec::new();
    let mut i: usize = 0;
    while i < a.len()
        invariant
            i <= a@.len(),
            out.deep_view() =~= address_texts_spec(a@).take(i as int),
        decreases a@.len() - i,
    {
        let ghost before = out.deep_view();
        out.push(a[i].text());
        proof {
            assert(out.deep_view() =~= before.push(a@[i as int].text_spec()));
        }
        i = i + 1;
    }
    out
}

/// Reports whether a list holds an address.
pub fn has_address(a: &Vec<IpAddr>, ip: IpAddr) -> (r: bool)
    ensures
        r == a@.contains(ip),
{
    let mut i: usize = 0;
    while i < a.len()
        invariant
            i <= a@.len(),
            forall|j: int| 0 <= j < i ==> a@[j] != ip,
        decreases a@.len() - i,
    {
        if a[i] == ip {
            return true;
        }
        i = i + 1;
    }
    false
}

/// A list with an address appended unless it is there already.
pub open spec fn add_address(a: Seq<IpAddr>, ip: IpAddr) -> Seq<IpAddr> {
    if a.contains(ip) {
        a
    } else {
        a.push(ip)
    }
}

/// Appends an address unless it is there already.
pub fn push_address(a: &mut Vec<IpAddr>, ip: IpAddr)
    ensures
        final(a)@ == add_address(old(a)@, ip),
{
    if !has_address(a, ip) {
        a.push(ip);
    }
}

/// The IPv6 address whose sixteen octets start at position `i`.
pub open spec fn ipv6_at_spec(b: Seq<u8>, i: int) -> Ipv6Addr {
    Ipv6Addr { bits: groups_bits(Seq::new(8, |k: int| bytes::be16_spec(b, i + 2 * k))) }
}

/// Reads an IPv6 address from sixteen octets.
pub fn ipv6_at(b: &[u8], i: usize) -> (r: Ipv6Addr)
    requires
        i + 16 <= b@.len(),
    ensures
        r == ipv6_at_spec(b@, i as int),
{
    let n: usize = b.len();
    let mut g: Vec<u16> = Vec::new();
    let mut k: usize = 0;
    while k < 8
        invariant
            k <= 8,
            i + 16 <= n,
            n == b@.len(),
            g@ == Seq::new(k as nat, |j: int| bytes::be16_spec(b@, i + 2 * j)),
        decreases 8 - k,
    {
        g.push(be16(b, i + 2 * k));
        k = k + 1;
        proof {
            assert(g@ =~= Seq::new(k as nat, |j: int| bytes::be16_spec(b@, i + 2 * j)));
        }
    }
    from_groups(&g)
}

} // verus!
