//! The subset of the Basic Encoding Rules that the probes speak.

pub mod octets;

use crate::bytes::push_all;
use vstd::prelude::*;

verus! {

/// The big-endian bytes of a number, without leading zeros.
pub open spec fn be_bytes(n: nat) -> Seq<u8>
    decreases n,
{
    if n < 0x100 {
        seq![n as u8]
    } else {
        be_bytes(n / 0x100).push((n % 0x100) as u8)
    }
}

/// The number that big-endian bytes spell.
pub open spec fn be_value(b: Seq<u8>) -> nat
    decreases b.len(),
{
    if b.len() == 0 {
        0
    } else {
        be_value(b.drop_last()) * 0x100 + b.last() as nat
    }
}

/// A length: one byte below 128, and otherwise the number of length bytes, marked
/// by the top bit, and those bytes.
pub open spec fn length_bytes(n: nat) -> Seq<u8> {
    if n < 0x80 {
        seq![n as u8]
    } else {
        seq![(0x80 + be_bytes(n).len()) as u8] + be_bytes(n)
    }
}

/// A value behind its tag and length.
pub open spec fn tlv_spec(tag: u8, value: Seq<u8>) -> Seq<u8> {
    seq![tag] + length_bytes(value.len()) + value
}

/// Appends the big-endian bytes of a number.
fn push_be_bytes(out: &mut Vec<u8>, n: u64)
    ensures
        final(out)@ == old(out)@ + be_bytes(n as nat),
    decreases n,
{
    if n >= 0x100 {
        push_be_bytes(out, n / 0x100);
    }
    out.push((n % 0x100) as u8);
    proof {
        assert(out@ =~= old(out)@ + be_bytes(n as nat));
    }
}

/// The number of big-endian bytes of a 64-bit number is at most eight.
proof fn lemma_be_bytes_len(n: nat, k: nat)
    requires
        n < pow256(k),
        k > 0,
    ensures
        1 <= be_bytes(n).len() <= k,
    decreases k,
{
    if n >= 0x100 {
        if k == 1 {
            reveal_with_fuel(pow256, 2);
        }
        assert(pow256(k) == 0x100 * pow256((k - 1) as nat));
        lemma_be_bytes_len(n / 0x100, (k - 1) as nat);
    }
}

/// The power of 256.
spec fn pow256(k: nat) -> nat
    decreases k,
{
    if k == 0 {
        1
    } else {
        0x100 * pow256((k - 1) as nat)
    }
}

/// Appends a length.
pub fn write_len(len: usize, out: &mut Vec<u8>)
    ensures
        final(out)@ == old(out)@ + length_bytes(len as nat),
{
    if len < 0x80 {
        out.push(len as u8);
        proof {
            assert(out@ =~= old(out)@ + length_bytes(len as nat));
        }
        return;
    }
    let mut bytes: Vec<u8> = Vec::new();
    push_be_bytes(&mut bytes, len as u64);
    proof {
        assert(bytes@ =~= be_bytes(len as nat));
        assert(pow256(8) == 0x1_0000_0000_0000_0000) by {
            reveal_with_fuel(pow256, 9);
        }
        lemma_be_bytes_len(len as nat, 8);
    }
    let count: u8 = bytes.len() as u8;
    out.push(0x80 + count);
    out.append(&mut bytes);
    proof {
        assert(out@ =~= old(out)@ + length_bytes(len as nat));
    }
}

/// Puts a value behind its tag and length.
pub fn tlv(tag: u8, value: &[u8]) -> (r: Vec<u8>)
    ensures
        r@ == tlv_spec(tag, value@),
{
    let mut out: Vec<u8> = Vec::new();
    out.push(tag);
    write_len(value.len(), &mut out);
    push_all(&mut out, value);
    proof {
        assert(out@ =~= tlv_spec(tag, value@));
    }
    out
}

/// The leading groups of seven bits of a number, each marked by the top bit.
pub open spec fn base128_lead(n: nat) -> Seq<u8>
    decreases n,
{
    if n == 0 {
        seq![]
    } else {
        base128_lead(n / 0x80).push((0x80 + n % 0x80) as u8)
    }
}

/// A number in groups of seven bits; all but the last are marked by the top bit.
pub open spec fn base128_bytes(n: nat) -> Seq<u8> {
    base128_lead(n / 0x80).push((n % 0x80) as u8)
}

/// Appends the leading groups of a number.
fn push_base128_lead(out: &mut Vec<u8>, n: u32)
    ensures
        final(out)@ == old(out)@ + base128_lead(n as nat),
    decreases n,
{
    if n > 0 {
        push_base128_lead(out, n / 0x80);
        out.push(0x80 + (n % 0x80) as u8);
    }
    proof {
        assert(out@ =~= old(out)@ + base128_lead(n as nat));
    }
}

/// Appends a number in groups of seven bits.
pub fn encode_base128(n: u32, out: &mut Vec<u8>)
    ensures
        final(out)@ == old(out)@ + base128_bytes(n as nat),
{
    push_base128_lead(out, n / 0x80);
    out.push((n % 0x80) as u8);
    proof {
        assert(out@ =~= old(out)@ + base128_bytes(n as nat));
    }
}

/// Numbers in groups of seven bits, one after the other.
pub open spec fn arcs_bytes(arcs: Seq<u32>) -> Seq<u8>
    decreases arcs.len(),
{
    if arcs.len() == 0 {
        seq![]
    } else {
        arcs_bytes(arcs.drop_last()) + base128_bytes(arcs.last() as nat)
    }
}

/// The content of an object identifier: its first two parts share a byte.
pub open spec fn oid_body(parts: Seq<u32>) -> Seq<u8> {
    seq![(parts[0] * 40 + parts[1]) as u8] + arcs_bytes(parts.skip(2))
}

/// The identifier has its first two parts, and the byte that they share does not
/// overflow on the way.
pub open spec fn encodable(parts: Seq<u32>) -> bool {
    parts.len() >= 2 && parts[0] * 40 + parts[1] <= u32::MAX
}

/// Encodes an object identifier.
pub fn oid(parts: &[u32]) -> (r: Vec<u8>)
    requires
        encodable(parts@),
    ensures
        r@ == tlv_spec(0x06, oid_body(parts@)),
{
    let mut body: Vec<u8> = Vec::new();
    let lead: u32 = parts[0] * 40 + parts[1];
    body.push(
        #[verifier::truncate]
        (lead as u8),
    );
    let ghost arcs = parts@.skip(2);
    let mut i: usize = 2;
    proof {
        assert(body@ =~= seq![lead as u8] + arcs_bytes(arcs.take(0)));
    }
    while i < parts.len()
        invariant
            2 <= i <= parts@.len(),
            arcs == parts@.skip(2),
            body@ == seq![lead as u8] + arcs_bytes(arcs.take(i - 2)),
        decreases parts@.len() - i,
    {
        let ghost before = body@;
        proof {
            assert(arcs.take(i - 1).drop_last() =~= arcs.take(i - 2));
            assert(arcs.take(i - 1).last() == parts@[i as int]);
        }
        encode_base128(parts[i], &mut body);
        proof {
            assert(body@ =~= seq![lead as u8] + arcs_bytes(arcs.take(i - 1)));
        }
        i = i + 1;
    }
    proof {
        assert(arcs.take(i - 2) =~= arcs);
        assert(body@ =~= oid_body(parts@));
    }
    tlv(0x06, body.as_slice())
}

/// The shortest bytes of a signed number in two's complement.
pub open spec fn signed_bytes(v: int) -> Seq<u8>
    decreases
            if v < 0 {
                -v
            } else {
                v
            },
{
    if -0x80 <= v < 0x80 {
        seq![(v % 0x100) as u8]
    } else {
        signed_bytes(v / 0x100).push((v % 0x100) as u8)
    }
}

/// Appends the bytes of a signed number.
fn push_signed(out: &mut Vec<u8>, v: i64)
    ensures
        final(out)@ == old(out)@ + signed_bytes(v as int),
    decreases
            (if v < 0 {
                -v
            } else {
                v as int
            }),
{
    let (high, low): (i64, u8) = if v >= 0 {
        (v / 0x100, (v % 0x100) as u8)
    } else {
        let m: i64 = -1 - v;
        (-1 - m / 0x100, (255 - m % 0x100) as u8)
    };
    proof {
        assert(high == v as int / 0x100);
        assert(low == v as int % 0x100);
    }
    if !(-0x80 <= v && v < 0x80) {
        push_signed(out, high);
    }
    out.push(low);
    proof {
        assert(out@ =~= old(out)@ + signed_bytes(v as int));
    }
}

/// Encodes a signed number.
pub fn integer(value: i32) -> (r: Vec<u8>)
    ensures
        r@ == tlv_spec(0x02, signed_bytes(value as int)),
{
    let mut body: Vec<u8> = Vec::new();
    push_signed(&mut body, value as i64);
    proof {
        assert(body@ =~= signed_bytes(value as int));
    }
    tlv(0x02, body.as_slice())
}

/// The length at the start of a byte string, and the number of bytes it takes. A
/// length of more than four bytes is refused.
pub open spec fn read_len_spec(b: Seq<u8>) -> Option<(int, int)> {
    if b.len() == 0 {
        None
    } else if b[0] < 0x80 {
        Some((b[0] as int, 1))
    } else {
        let count = b[0] - 0x80;
        if count == 0 || count > 4 || count > b.len() - 1 {
            None
        } else {
            Some((be_value(b.subrange(1, 1 + count)) as int, 1 + count))
        }
    }
}

/// Reads the length at the start of a byte string.
fn read_len(b: &[u8]) -> (r: Option<(u64, usize)>)
    ensures
        match r {
            Some((n, taken)) => read_len_spec(b@) == Some((n as int, taken as int)) && taken
                <= b@.len(),
            None => read_len_spec(b@) is None,
        },
{
    if b.len() == 0 {
        return None;
    }
    let lead: u8 = b[0];
    if lead < 0x80 {
        return Some((lead as u64, 1));
    }
    let count: usize = (lead - 0x80) as usize;
    if count == 0 || count > 4 || count > b.len() - 1 {
        return None;
    }
    let mut n: u64 = 0;
    let mut i: usize = 0;
    let ghost digits = b@.subrange(1, 1 + count);
    while i < count
        invariant
            i <= count <= 4,
            count + 1 <= b@.len(),
            digits == b@.subrange(1, 1 + count),
            n == be_value(digits.take(i as int)),
            i == 0 ==> n == 0,
            i == 1 ==> n < 0x100,
            i == 2 ==> n < 0x1_0000,
            i == 3 ==> n < 0x100_0000,
            i == 4 ==> n < 0x1_0000_0000,
        decreases count - i,
    {
        proof {
            assert(digits.take(i + 1).drop_last() =~= digits.take(i as int));
            assert(digits.take(i + 1).last() == b@[1 + i]);
        }
        n = n * 0x100 + b[1 + i] as u64;
        i = i + 1;
    }
    proof {
        assert(digits.take(count as int) =~= digits);
    }
    Some((n, 1 + count))
}

/// The tag, the value, and the bytes behind a value at the start of a byte string.
pub open spec fn read_tlv_spec(b: Seq<u8>) -> Option<(u8, Seq<u8>, Seq<u8>)> {
    if b.len() == 0 {
        None
    } else {
        match read_len_spec(b.skip(1)) {
            Some((n, taken)) => if 1 + taken + n > b.len() {
                None
            } else {
                Some((b[0], b.subrange(1 + taken, 1 + taken + n), b.skip(1 + taken + n)))
            },
            None => None,
        }
    }
}

/// The content of a read value.
pub open spec fn tlv_view(r: Option<(u8, &[u8], &[u8])>) -> Option<(u8, Seq<u8>, Seq<u8>)> {
    match r {
        Some((tag, value, rest)) => Some((tag, value@, rest@)),
        None => None,
    }
}

/// Reads a value at the start of a byte string.
pub fn read_tlv<'a>(b: &'a [u8]) -> (r: Option<(u8, &'a [u8], &'a [u8])>)
    ensures
        tlv_view(r) == read_tlv_spec(b@),
        r matches Some((_, _, rest)) ==> rest@.len() < b@.len(),
{
    let total: usize = b.len();
    if total == 0 {
        return None;
    }
    let tail = vstd::slice::slice_subrange(b, 1, total);
    proof {
        assert(tail@ =~= b@.skip(1));
    }
    match read_len(tail) {
        Some((n, taken)) => {
            let start: usize = 1 + taken;
            if n > (total - start) as u64 {
                return None;
            }
            let end: usize = start + n as usize;
            let rest = vstd::slice::slice_subrange(b, end, total);
            proof {
                assert(rest@ =~= b@.skip(end as int));
            }
            Some((b[0], vstd::slice::slice_subrange(b, start, end), rest))
        },
        None => None,
    }
}

/// The value at the start of a byte string, where it has the given tag, and the
/// bytes behind it.
pub open spec fn expect_spec(b: Seq<u8>, tag: u8) -> Option<(Seq<u8>, Seq<u8>)> {
    match read_tlv_spec(b) {
        Some((t, value, rest)) if t == tag => Some((value, rest)),
        _ => None,
    }
}

/// The content of a read value of a known tag.
pub open spec fn expect_view(r: Option<(&[u8], &[u8])>) -> Option<(Seq<u8>, Seq<u8>)> {
    match r {
        Some((value, rest)) => Some((value@, rest@)),
        None => None,
    }
}

/// Reads a value of the given tag.
pub fn expect<'a>(b: &'a [u8], tag: u8) -> (r: Option<(&'a [u8], &'a [u8])>)
    ensures
        expect_view(r) == expect_spec(b@, tag),
        r matches Some((_, rest)) ==> rest@.len() < b@.len(),
{
    match read_tlv(b) {
        Some((t, value, rest)) => if t == tag {
            Some((value, rest))
        } else {
            None
        },
        None => None,
    }
}

/// Bytes of a number without leading zeros spell that number.
pub proof fn lemma_be_value(n: nat)
    ensures
        be_value(be_bytes(n)) == n,
    decreases n,
{
    if n < 0x100 {
        reveal_with_fuel(be_value, 2);
        assert(be_bytes(n).drop_last() =~= seq![]);
    } else {
        lemma_be_value(n / 0x100);
        assert(be_bytes(n).drop_last() =~= be_bytes(n / 0x100));
    }
}

/// A value that was put behind its tag and length reads back, whatever follows it.
/// Values of four gigabytes or more have lengths that are refused.
pub proof fn law_tlv_reads_back(tag: u8, value: Seq<u8>, back: Seq<u8>)
    requires
        value.len() < 0x1_0000_0000,
    ensures
        read_tlv_spec(tlv_spec(tag, value) + back) == Some((tag, value, back)),
{
    let n = value.len();
    let b = tlv_spec(tag, value) + back;
    let tail = b.skip(1);
    let code = length_bytes(n);
    assert(tail =~= code + value + back);
    if n >= 0x80 {
        assert(pow256(4) == 0x1_0000_0000) by {
            reveal_with_fuel(pow256, 5);
        }
        lemma_be_bytes_len(n, 4);
        lemma_be_value(n);
        assert(tail[0] == 0x80 + be_bytes(n).len());
        assert(tail.subrange(1, 1int + be_bytes(n).len()) =~= be_bytes(n));
    } else {
        assert(tail[0] == n);
    }
    assert(read_len_spec(tail) == Some((n as int, code.len() as int)));
    assert(b.subrange(1int + code.len(), 1int + code.len() + n) =~= value);
    assert(b.skip(1int + code.len() + n) =~= back);
}

/// The parts that groups of seven bits spell, after the number `value` whose
/// groups were read so far. Numbers keep their low 32 bits.
pub open spec fn arcs_value(b: Seq<u8>, value: u32) -> Seq<u32>
    decreases b.len(),
{
    if b.len() == 0 {
        seq![]
    } else {
        let next = (value as nat % 0x200_0000 * 0x80 + b[0] as nat % 0x80) as u32;
        if b[0] < 0x80 {
            seq![next] + arcs_value(b.drop_first(), 0)
        } else {
            arcs_value(b.drop_first(), next)
        }
    }
}

/// The parts of an object identifier.
pub open spec fn oid_parts(b: Seq<u8>) -> Option<Seq<u32>> {
    if b.len() == 0 {
        None
    } else {
        Some(seq![(b[0] / 40) as u32, (b[0] % 40) as u32] + arcs_value(b.drop_first(), 0))
    }
}

/// The content of an optional list of parts.
pub open spec fn parts_view(r: Option<Vec<u32>>) -> Option<Seq<u32>> {
    match r {
        Some(v) => Some(v@),
        None => None,
    }
}

/// Decodes an object identifier.
pub fn decode_oid(b: &[u8]) -> (r: Option<Vec<u32>>)
    ensures
        parts_view(r) == oid_parts(b@),
{
    if b.len() == 0 {
        return None;
    }
    let mut parts: Vec<u32> = Vec::new();
    parts.push((b[0] / 40) as u32);
    parts.push((b[0] % 40) as u32);
    let mut value: u32 = 0;
    let mut i: usize = 1;
    proof {
        assert(b@.drop_first() =~= b@.skip(1));
        assert(parts@ =~= seq![(b@[0] / 40) as u32, (b@[0] % 40) as u32]);
    }
    while i < b.len()
        invariant
            1 <= i <= b@.len(),
            oid_parts(b@) == Some(parts@ + arcs_value(b@.skip(i as int), value)),
        decreases b@.len() - i,
    {
        let ghost rest = b@.skip(i as int);
        let ghost before = parts@;
        let next: u32 = value % 0x200_0000 * 0x80 + (b[i] % 0x80) as u32;
        proof {
            assert(rest.drop_first() =~= b@.skip(i + 1));
        }
        if b[i] < 0x80 {
            parts.push(next);
            proof {
                let tail = arcs_value(rest.drop_first(), 0);
                assert(before + (seq![next] + tail) =~= parts@ + tail);
            }
            value = 0;
        } else {
            value = next;
        }
        i = i + 1;
    }
    proof {
        assert(parts@ + Seq::<u32>::empty() =~= parts@);
    }
    Some(parts)
}

/// Leading groups are read back as the number that they spell.
proof fn lemma_lead_reads_back(n: nat, back: Seq<u8>)
    requires
        n < 0x200_0000,
    ensures
        arcs_value(base128_lead(n) + back, 0) == arcs_value(back, n as u32),
    decreases n,
{
    if n == 0 {
        assert(base128_lead(n) + back =~= back);
    } else {
        let mark = (0x80 + n % 0x80) as u8;
        lemma_lead_reads_back(n / 0x80, seq![mark] + back);
        assert(base128_lead(n) + back =~= base128_lead(n / 0x80) + (seq![mark] + back));
        assert((seq![mark] + back).drop_first() =~= back);
    }
}

/// Parts that were encoded are read back.
proof fn lemma_arcs_read_back(arcs: Seq<u32>, back: Seq<u8>)
    ensures
        arcs_value(arcs_bytes(arcs) + back, 0) == arcs + arcs_value(back, 0),
    decreases arcs.len(),
{
    if arcs.len() == 0 {
        assert(arcs_bytes(arcs) + back =~= back);
        assert(arcs + arcs_value(back, 0) =~= arcs_value(back, 0));
    } else {
        let last = arcs.last() as nat;
        let code = base128_bytes(last);
        lemma_arcs_read_back(arcs.drop_last(), code + back);
        assert(arcs_bytes(arcs) + back =~= arcs_bytes(arcs.drop_last()) + (code + back));
        let tail = seq![(last % 0x80) as u8] + back;
        assert(code + back =~= base128_lead(last / 0x80) + tail);
        lemma_lead_reads_back(last / 0x80, tail);
        assert(tail.drop_first() =~= back);
        assert(arcs_value(tail, (last / 0x80) as u32) =~= seq![arcs.last()] + arcs_value(back, 0));
        assert(arcs.drop_last() + (seq![arcs.last()] + arcs_value(back, 0)) =~= arcs + arcs_value(
            back,
            0,
        ));
    }
}

/// An object identifier reads back from its encoding, where its first two parts fit
/// the byte that they share.
pub proof fn law_oid_reads_back(parts: Seq<u32>)
    requires
        parts.len() >= 2,
        parts[1] < 40,
        parts[0] * 40 + parts[1] < 0x100,
    ensures
        oid_parts(oid_body(parts)) == Some(parts),
{
    let arcs = parts.skip(2);
    lemma_arcs_read_back(arcs, seq![]);
    assert(oid_body(parts).drop_first() =~= arcs_bytes(arcs) + Seq::<u8>::empty());
    assert(arcs + arcs_value(seq![], 0) =~= arcs);
    assert(seq![parts[0], parts[1]] + arcs =~= parts);
    let lead = (parts[0] * 40 + parts[1]) as u8;
    assert(lead / 40 == parts[0]);
    assert(lead % 40 == parts[1]);
}

/// The number that bytes in two's complement spell, with the sign that the first
/// byte gives it. Longer strings keep their low 64 bits.
pub open spec fn signed_value(b: Seq<u8>) -> int
    decreases b.len(),
{
    if b.len() == 0 {
        0
    } else if b.len() == 1 {
        if b[0] < 0x80 {
            b[0] as int
        } else {
            b[0] - 0x100
        }
    } else {
        signed_value(b.drop_last()) * 0x100 + b.last()
    }
}

/// The low 64 bits of a number, read in two's complement.
pub open spec fn low_64(v: int) -> int {
    let low = v % 0x1_0000_0000_0000_0000;
    if low < 0x8000_0000_0000_0000 {
        low
    } else {
        low - 0x1_0000_0000_0000_0000
    }
}

/// Decodes a signed number.
pub fn decode_integer(b: &[u8]) -> (r: Option<i64>)
    ensures
        b@.len() == 0 ==> r is None,
        b@.len() > 0 ==> (r matches Some(v) && v == low_64(signed_value(b@))),
{
    if b.len() == 0 {
        return None;
    }
    let mut value: i64 = if b[0] < 0x80 {
        b[0] as i64
    } else {
        b[0] as i64 - 0x100
    };
    let mut i: usize = 1;
    proof {
        assert(b@.take(1).len() == 1);
    }
    while i < b.len()
        invariant
            1 <= i <= b@.len(),
            value == low_64(signed_value(b@.take(i as int))),
        decreases b@.len() - i,
    {
        proof {
            assert(b@.take(i + 1).drop_last() =~= b@.take(i as int));
        }
        let ghost before = signed_value(b@.take(i as int));
        let wide: i128 = value as i128 * 0x100 + b[i] as i128;
        let lifted: i128 = wide + 0x100_0000_0000_0000_0000_0000;
        let low: i128 = lifted % 0x1_0000_0000_0000_0000;
        value = if low < 0x8000_0000_0000_0000 {
            low as i64
        } else {
            (low - 0x1_0000_0000_0000_0000) as i64
        };
        proof {
            lemma_low_64_step(before, b@[i as int] as int, wide as int);
        }
        i = i + 1;
    }
    proof {
        assert(b@.take(i as int) =~= b@);
    }
    Some(value)
}

/// Low bits of a longer number depend on low bits alone.
proof fn lemma_low_64_step(v: int, digit: int, wide: int)
    requires
        wide == low_64(v) * 0x100 + digit,
    ensures
        low_64(v * 0x100 + digit) == low_64(wide),
        (wide + 0x100_0000_0000_0000_0000_0000) % 0x1_0000_0000_0000_0000 == wide
            % 0x1_0000_0000_0000_0000,
{
    let q = v / 0x1_0000_0000_0000_0000;
    let big = v * 0x100 + digit;
    assert(v == q * 0x1_0000_0000_0000_0000 + v % 0x1_0000_0000_0000_0000);
    if v % 0x1_0000_0000_0000_0000 < 0x8000_0000_0000_0000 {
        assert(big == 0x1_0000_0000_0000_0000 * (q * 0x100) + wide);
        vstd::arithmetic::div_mod::lemma_mod_multiples_vanish(
            q * 0x100,
            wide,
            0x1_0000_0000_0000_0000,
        );
    } else {
        assert(big == 0x1_0000_0000_0000_0000 * ((q + 1) * 0x100) + wide);
        vstd::arithmetic::div_mod::lemma_mod_multiples_vanish(
            (q + 1) * 0x100,
            wide,
            0x1_0000_0000_0000_0000,
        );
    }
    vstd::arithmetic::div_mod::lemma_mod_multiples_vanish(
        0x100_0000,
        wide,
        0x1_0000_0000_0000_0000,
    );
}

/// A signed number reads back from its encoding.
pub proof fn law_integer_reads_back(v: int)
    ensures
        signed_value(signed_bytes(v)) == v,
        signed_bytes(v).len() > 0,
        i64::MIN <= v <= i64::MAX ==> low_64(signed_value(signed_bytes(v))) == v,
    decreases
            if v < 0 {
                -v
            } else {
                v
            },
{
    if -0x80 <= v < 0x80 {
    } else {
        law_integer_reads_back(v / 0x100);
        assert(signed_bytes(v).drop_last() =~= signed_bytes(v / 0x100));
    }
}

/// The number that at most eight bytes spell.
pub open spec fn unsigned_value(b: Seq<u8>) -> Option<nat> {
    if b.len() > 8 {
        None
    } else {
        Some(be_value(b))
    }
}

/// Decodes an unsigned number.
pub fn decode_unsigned(b: &[u8]) -> (r: Option<u64>)
    ensures
        match r {
            Some(v) => unsigned_value(b@) == Some(v as nat),
            None => unsigned_value(b@) is None,
        },
{
    if b.len() > 8 {
        return None;
    }
    let mut value: u64 = 0;
    let mut i: usize = 0;
    while i < b.len()
        invariant
            i <= b@.len() <= 8,
            value == be_value(b@.take(i as int)),
            value < pow256(i as nat),
        decreases b@.len() - i,
    {
        proof {
            assert(b@.take(i + 1).drop_last() =~= b@.take(i as int));
            assert(pow256(7) == 0x100_0000_0000_0000) by {
                reveal_with_fuel(pow256, 8);
            }
            lemma_pow256_grows(i as nat, 7);
            assert(pow256((i + 1) as nat) == 0x100 * pow256(i as nat));
        }
        value = value * 0x100 + b[i] as u64;
        i = i + 1;
    }
    proof {
        assert(b@.take(i as int) =~= b@);
    }
    Some(value)
}

/// Powers of 256 grow.
proof fn lemma_pow256_grows(a: nat, b: nat)
    requires
        a <= b,
    ensures
        pow256(a) <= pow256(b),
    decreases b,
{
    if a < b {
        lemma_pow256_grows(a, (b - 1) as nat);
    }
}

} // verus!
