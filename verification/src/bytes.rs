//! Fixed-width integers and text in byte strings.

use crate::text::{chars, text, trim, trim_char, utf8_lossy};
use crate::text;
use vstd::prelude::*;

verus! {

/// The big-endian 16-bit number at position `i`.
pub open spec fn be16_spec(b: Seq<u8>, i: int) -> u16 {
    (b[i] * 0x100 + b[i + 1]) as u16
}

/// The big-endian 32-bit number at position `i`.
pub open spec fn be32_spec(b: Seq<u8>, i: int) -> u32 {
    (b[i] * 0x100_0000 + b[i + 1] * 0x1_0000 + b[i + 2] * 0x100 + b[i + 3]) as u32
}

/// The little-endian 16-bit number at position `i`.
pub open spec fn le16_spec(b: Seq<u8>, i: int) -> u16 {
    (b[i] + b[i + 1] * 0x100) as u16
}

/// The little-endian 32-bit number at position `i`.
pub open spec fn le32_spec(b: Seq<u8>, i: int) -> u32 {
    (b[i] + b[i + 1] * 0x100 + b[i + 2] * 0x1_0000 + b[i + 3] * 0x100_0000) as u32
}

/// Reads a big-endian 16-bit number.
pub fn be16(b: &[u8], i: usize) -> (r: u16)
    requires
        i + 1 < b@.len(),
    ensures
        r == be16_spec(b@, i as int),
{
    b[i] as u16 * 0x100 + b[i + 1] as u16
}

/// Reads a big-endian 32-bit number.
pub fn be32(b: &[u8], i: usize) -> (r: u32)
    requires
        i + 3 < b@.len(),
    ensures
        r == be32_spec(b@, i as int),
{
    b[i] as u32 * 0x100_0000 + b[i + 1] as u32 * 0x1_0000 + b[i + 2] as u32 * 0x100 + b[i
        + 3] as u32
}

/// Reads a little-endian 16-bit number.
pub fn le16(b: &[u8], i: usize) -> (r: u16)
    requires
        i + 1 < b@.len(),
    ensures
        r == le16_spec(b@, i as int),
{
    b[i] as u16 + b[i + 1] as u16 * 0x100
}

/// Reads a little-endian 32-bit number.
pub fn le32(b: &[u8], i: usize) -> (r: u32)
    requires
        i + 3 < b@.len(),
    ensures
        r == le32_spec(b@, i as int),
{
    b[i] as u32 + b[i + 1] as u32 * 0x100 + b[i + 2] as u32 * 0x1_0000 + b[i + 3] as u32
        * 0x100_0000
}

/// The bytes of a big-endian 16-bit number.
pub open spec fn be16_bytes(v: u16) -> Seq<u8> {
    seq![(v / 0x100) as u8, (v % 0x100) as u8]
}

/// The bytes of a big-endian 32-bit number.
pub open spec fn be32_bytes(v: u32) -> Seq<u8> {
    seq![
        (v / 0x100_0000) as u8,
        (v / 0x1_0000 % 0x100) as u8,
        (v / 0x100 % 0x100) as u8,
        (v % 0x100) as u8,
    ]
}

/// The bytes of a little-endian 16-bit number.
pub open spec fn le16_bytes(v: u16) -> Seq<u8> {
    seq![(v % 0x100) as u8, (v / 0x100) as u8]
}

/// The bytes of a little-endian 32-bit number.
pub open spec fn le32_bytes(v: u32) -> Seq<u8> {
    seq![
        (v % 0x100) as u8,
        (v / 0x100 % 0x100) as u8,
        (v / 0x1_0000 % 0x100) as u8,
        (v / 0x100_0000) as u8,
    ]
}

/// Appends a byte string.
pub fn push_all(out: &mut Vec<u8>, b: &[u8])
    ensures
        final(out)@ == old(out)@ + b@,
{
    out.extend_from_slice(b);
    proof {
        assert(out@ =~= old(out)@ + b@);
    }
}

/// Appends a big-endian 16-bit number.
pub fn push_be16(out: &mut Vec<u8>, v: u16)
    ensures
        final(out)@ == old(out)@ + be16_bytes(v),
{
    out.push((v / 0x100) as u8);
    out.push((v % 0x100) as u8);
    proof {
        assert(out@ =~= old(out)@ + be16_bytes(v));
    }
}

/// Appends a big-endian 32-bit number.
pub fn push_be32(out: &mut Vec<u8>, v: u32)
    ensures
        final(out)@ == old(out)@ + be32_bytes(v),
{
    out.push((v / 0x100_0000) as u8);
    out.push((v / 0x1_0000 % 0x100) as u8);
    out.push((v / 0x100 % 0x100) as u8);
    out.push((v % 0x100) as u8);
    proof {
        assert(out@ =~= old(out)@ + be32_bytes(v));
    }
}

/// Appends a little-endian 16-bit number.
pub fn push_le16(out: &mut Vec<u8>, v: u16)
    ensures
        final(out)@ == old(out)@ + le16_bytes(v),
{
    out.push((v % 0x100) as u8);
    out.push((v / 0x100) as u8);
    proof {
        assert(out@ =~= old(out)@ + le16_bytes(v));
    }
}

/// Appends a little-endian 32-bit number.
pub fn push_le32(out: &mut Vec<u8>, v: u32)
    ensures
        final(out)@ == old(out)@ + le32_bytes(v),
{
    out.push((v % 0x100) as u8);
    out.push((v / 0x100 % 0x100) as u8);
    out.push((v / 0x1_0000 % 0x100) as u8);
    out.push((v / 0x100_0000) as u8);
    proof {
        assert(out@ =~= old(out)@ + le32_bytes(v));
    }
}

/// Reports whether two byte strings are the same.
pub fn same_bytes(a: &[u8], b: &[u8]) -> (r: bool)
    ensures
        r == (a@ == b@),
{
    if a.len() != b.len() {
        return false;
    }
    let mut i: usize = 0;
    while i < a.len()
        invariant
            i <= a@.len(),
            a@.len() == b@.len(),
            forall|j: int| 0 <= j < i ==> a@[j] == b@[j],
        decreases a@.len() - i,
    {
        if a[i] != b[i] {
            return false;
        }
        i = i + 1;
    }
    proof {
        assert(a@ =~= b@);
    }
    true
}

/// The number that exactly two bytes spell, in big-endian order.
pub open spec fn exact_u16_spec(b: Seq<u8>) -> Option<u16> {
    if b.len() == 2 {
        Some(be16_spec(b, 0))
    } else {
        None
    }
}

/// Reads a number from exactly two bytes.
pub fn exact_u16(b: &[u8]) -> (r: Option<u16>)
    ensures
        r == exact_u16_spec(b@),
{
    if b.len() == 2 {
        Some(be16(b, 0))
    } else {
        None
    }
}

/// The text of a byte field: decoded as UTF-8, without NUL bytes and white space
/// around it; nothing when no text is left.
pub open spec fn clean_text_spec(b: Seq<u8>) -> Option<Seq<char>> {
    let t = text::trim_spec(text::trim_char_spec(text::utf8_lossy_spec(b), '\0'));
    if t.len() == 0 {
        None
    } else {
        Some(t)
    }
}

/// Reads the text of a byte field.
pub fn clean_text(b: &[u8]) -> (r: Option<String>)
    ensures
        r.deep_view() == clean_text_spec(b@),
{
    let c = chars(utf8_lossy(b).as_str());
    let t = trim(trim_char(c.as_slice(), '\0'));
    if t.len() == 0 {
        None
    } else {
        Some(text(t))
    }
}

/// A list with a name appended where a condition holds.
pub open spec fn add_if(s: Seq<Seq<char>>, condition: bool, name: Seq<char>) -> Seq<Seq<char>> {
    if condition {
        s.push(name)
    } else {
        s
    }
}

/// Appends a name where a condition holds.
pub fn push_if(v: &mut Vec<String>, condition: bool, name: &str)
    ensures
        final(v).deep_view() == add_if(old(v).deep_view(), condition, name@),
{
    if condition {
        v.push(name.to_owned());
        proof {
            assert(v.deep_view() =~= old(v).deep_view().push(name@));
        }
    }
}

} // verus!
