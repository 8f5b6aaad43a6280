//! How numbers and identifiers are written in bytes.

use crate::ber;
use vstd::prelude::*;

verus! {

/// A number from -128 to 127 is one byte, and one of two bytes has its high byte first;
/// a negative number is written as its complement.
pub proof fn law_signed_numbers_are_written_high_byte_first(v: int)
    ensures
        0 <= v < 128 ==> ber::signed_bytes(v) == seq![v as u8],
        -128 <= v < 0 ==> ber::signed_bytes(v) == seq![(256 + v) as u8],
        128 <= v < 32768 ==> ber::signed_bytes(v) == seq![(v / 256) as u8, (v % 256) as u8],
        v < -128 || v >= 128 ==> ber::signed_bytes(v) == ber::signed_bytes(v / 256) + seq![
            (v % 256) as u8,
        ],
{
    reveal_with_fuel(ber::signed_bytes, 2);
    if -128 <= v < 128 {
        assert(ber::signed_bytes(v) =~= seq![(v % 256) as u8]);
    } else {
        assert(ber::signed_bytes(v) =~= ber::signed_bytes(v / 256) + seq![(v % 256) as u8]);
        if 128 <= v < 32768 {
            assert(ber::signed_bytes(v / 256) =~= seq![(v / 256) as u8]);
        }
    }
}

/// A part of an identifier below 128 is one byte, and one below 16384 is two: its high
/// seven bits, marked, and its low seven bits.
pub proof fn law_parts_are_written_in_sevens(n: nat)
    ensures
        n < 128 ==> ber::base128_bytes(n) == seq![n as u8],
        128 <= n < 16384 ==> ber::base128_bytes(n) == seq![(128 + n / 128) as u8, (n % 128) as u8],
{
    reveal_with_fuel(ber::base128_lead, 3);
    if n < 128 {
        assert(ber::base128_bytes(n) =~= seq![n as u8]);
    } else if n < 16384 {
        assert(n / 128 / 128 == 0);
        assert(ber::base128_bytes(n) =~= seq![(128 + n / 128) as u8, (n % 128) as u8]);
    }
}

/// An identifier is written with its first two parts in one byte, and then part by part.
pub proof fn law_identifiers_are_written_part_by_part(parts: Seq<u32>)
    requires
        parts.len() >= 2,
    ensures
        parts.len() == 2 ==> ber::oid_body(parts) == seq![(parts[0] * 40 + parts[1]) as u8],
        parts.len() > 2 ==> ber::oid_body(parts) == ber::oid_body(parts.drop_last())
            + ber::base128_bytes(parts.last() as nat),
{
    let arcs = parts.skip(2);
    if parts.len() == 2 {
        assert(arcs =~= seq![]);
        assert(ber::oid_body(parts) =~= seq![(parts[0] * 40 + parts[1]) as u8]);
    } else {
        assert(arcs.drop_last() =~= parts.drop_last().skip(2));
        assert(arcs.last() == parts.last());
        assert(ber::oid_body(parts) =~= ber::oid_body(parts.drop_last()) + ber::base128_bytes(
            parts.last() as nat,
        ));
    }
}

/// A length of 128 or more is written behind a mark that counts its bytes, the high byte
/// first.
pub proof fn law_long_lengths_are_marked(n: nat)
    ensures
        128 <= n < 256 ==> ber::length_bytes(n) == seq![0x81u8, n as u8],
        256 <= n < 65536 ==> ber::length_bytes(n) == seq![
            0x82u8,
            (n / 256) as u8,
            (n % 256) as u8,
        ],
{
    reveal_with_fuel(ber::be_bytes, 3);
    if 128 <= n < 256 {
        assert(ber::be_bytes(n) =~= seq![n as u8]);
        assert(ber::length_bytes(n) =~= seq![0x81u8, n as u8]);
    } else if 256 <= n < 65536 {
        assert(ber::be_bytes(n) =~= seq![(n / 256) as u8, (n % 256) as u8]);
        assert(ber::length_bytes(n) =~= seq![0x82u8, (n / 256) as u8, (n % 256) as u8]);
    }
}

} // verus!
