//! NetBIOS name service: node status queries and their answers.

use crate::bytes::{be16, push_be16};
use crate::bytes;
use crate::text::{chars, insert_sorted, text, trim, utf8_lossy};
use crate::text;
use vstd::prelude::*;

verus! {

/// The answer to a node status query.
#[derive(Debug, PartialEq, Eq)]
pub struct NetbiosResponse {
    pub transaction_id: u16,
    pub names: Vec<String>,
}

/// The mathematical content of a [`NetbiosResponse`].
#[verifier::ext_equal]
pub struct NetbiosResponseView {
    pub transaction_id: u16,
    pub names: Seq<Seq<char>>,
}

impl View for NetbiosResponse {
    type V = NetbiosResponseView;

    open spec fn view(&self) -> NetbiosResponseView {
        NetbiosResponseView {
            transaction_id: self.transaction_id,
            names: self.names.deep_view(),
        }
    }
}

impl DeepView for NetbiosResponse {
    type V = NetbiosResponseView;

    open spec fn deep_view(&self) -> NetbiosResponseView {
        self@
    }
}

impl Clone for NetbiosResponse {
    fn clone(&self) -> (r: Self)
        ensures
            r@ == self@,
    {
        let r = NetbiosResponse {
            transaction_id: self.transaction_id,
            names: self.names.clone(),
        };
        proof {
            assert(r.names.deep_view() =~= self.names.deep_view());
        }
        r
    }
}

impl Default for NetbiosResponse {
    fn default() -> (r: Self)
        ensures
            r@ == (NetbiosResponseView {
                transaction_id: 0,
                names: seq![],
            }),
    {
        let r = NetbiosResponse {
            transaction_id: 0,
            names: Vec::new(),
        };
        proof {
            assert(r.names.deep_view() =~= seq![]);
        }
        r
    }
}

/// The upper-case form of an ASCII letter; other bytes stay.
pub open spec fn upper_byte(b: u8) -> u8 {
    if 0x61 <= b <= 0x7a {
        (b - 32) as u8
    } else {
        b
    }
}

/// The byte at position `i` of a name padded to sixteen: the name in upper case,
/// then spaces, then a closing zero.
pub open spec fn padded_byte(name: Seq<u8>, i: int) -> u8 {
    if i >= 15 {
        0
    } else if i < name.len() {
        upper_byte(name[i])
    } else {
        0x20
    }
}

/// A name in first-level encoding: each half of each padded byte as a letter.
pub open spec fn encoded_name_spec(name: Seq<u8>) -> Seq<u8> {
    Seq::new(
        32,
        |i: int|
            if i % 2 == 0 {
                (0x41 + padded_byte(name, i / 2) / 16) as u8
            } else {
                (0x41 + padded_byte(name, i / 2) % 16) as u8
            },
    )
}

/// Encodes a name.
fn encode_netbios_name(name: &str) -> (r: Vec<u8>)
    ensures
        r@ == encoded_name_spec(vstd::utf8::encode_utf8(name@)),
{
    let bytes = name.as_bytes();
    let mut out: Vec<u8> = Vec::new();
    let mut i: usize = 0;
    while i < 16
        invariant
            i <= 16,
            bytes@ == vstd::utf8::encode_utf8(name@),
            out@ == encoded_name_spec(bytes@).take(2 * i),
        decreases 16 - i,
    {
        let ghost before = out@;
        let raw: u8 = if i >= 15 {
            0
        } else if i < bytes.len() {
            let b: u8 = bytes[i];
            if 0x61 <= b && b <= 0x7a {
                b - 32
            } else {
                b
            }
        } else {
            0x20
        };
        out.push(0x41 + raw / 16);
        out.push(0x41 + raw % 16);
        i = i + 1;
        proof {
            assert(raw == padded_byte(bytes@, i - 1));
            assert(out@ =~= encoded_name_spec(bytes@).take(2 * i));
        }
    }
    proof {
        assert(encoded_name_spec(bytes@).take(32) =~= encoded_name_spec(bytes@));
    }
    out
}

/// The transaction that node status queries are sent under.
pub const NETBIOS_TRANSACTION: u16 = 0x4000;

/// A node status query for every name.
pub open spec fn netbios_query_spec(transaction_id: u16) -> Seq<u8> {
    bytes::be16_bytes(transaction_id) + seq![0u8, 0, 0, 1, 0, 0, 0, 0, 0, 0, 32] + encoded_name_spec(
        vstd::utf8::encode_utf8("*"@),
    ) + seq![0u8, 0, 0x21, 0, 0x01]
}

/// Builds a node status query for every name.
pub fn build_netbios_query(transaction_id: u16) -> (r: Vec<u8>)
    ensures
        r@ == netbios_query_spec(transaction_id),
{
    let mut packet: Vec<u8> = Vec::new();
    push_be16(&mut packet, transaction_id);
    push_be16(&mut packet, 0);
    push_be16(&mut packet, 1);
    push_be16(&mut packet, 0);
    push_be16(&mut packet, 0);
    push_be16(&mut packet, 0);
    packet.push(32);
    let mut name = encode_netbios_name("*");
    packet.append(&mut name);
    packet.push(0);
    push_be16(&mut packet, 0x0021);
    push_be16(&mut packet, 0x0001);
    proof {
        assert(packet@ =~= netbios_query_spec(transaction_id));
    }
    packet
}

/// The position behind the name at `at`: a pointer of two bytes, or one label
/// with its closing zero.
pub open spec fn skip_name_spec(b: Seq<u8>, at: int) -> Option<int> {
    if at < 0 || at >= b.len() {
        None
    } else if b[at] >= 0xc0 {
        if at + 2 <= b.len() {
            Some(at + 2)
        } else {
            None
        }
    } else {
        let end = at + 1 + b[at];
        if end < b.len() && b[end] == 0 {
            Some(end + 1)
        } else {
            None
        }
    }
}

/// The view of an optional position.
pub open spec fn position_view(r: Option<usize>) -> Option<int> {
    match r {
        Some(at) => Some(at as int),
        None => None,
    }
}

/// Skips the name at `at`.
fn skip_nbns_name(b: &[u8], at: usize) -> (r: Option<usize>)
    ensures
        r matches Some(next) ==> next <= b@.len(),
        position_view(r) == skip_name_spec(b@, at as int),
{
    let total: usize = b.len();
    if at >= total {
        return None;
    }
    if b[at] >= 0xc0 {
        if total - at < 2 {
            return None;
        }
        return Some(at + 2);
    }
    let n: usize = b[at] as usize;
    if total - at <= 1 + n {
        return None;
    }
    let end: usize = at + 1 + n;
    if b[end] != 0 {
        return None;
    }
    Some(end + 1)
}

/// The name in an entry of the name table is one of the device itself: not
/// blank, no group, and of a workstation, messenger, or file server.
pub open spec fn own_name(b: Seq<u8>) -> Option<Seq<char>> {
    let name = text::trim_spec(text::utf8_lossy_spec(b.take(15)));
    if name.len() > 0 && bytes::be16_spec(b, 16) < 0x8000 && (b[15] == 0x00 || b[15] == 0x03 || b[15]
        == 0x20) {
        Some(name)
    } else {
        None
    }
}

/// The names after up to `count` table entries of eighteen bytes each.
pub open spec fn table_names(names: Seq<Seq<char>>, b: Seq<u8>, count: nat) -> Seq<Seq<char>>
    decreases count,
{
    if count == 0 || b.len() < 18 {
        names
    } else {
        let names = match own_name(b.take(18)) {
            Some(name) => text::insert_sorted_spec(names, name),
            None => names,
        };
        table_names(names, b.skip(18), (count - 1) as nat)
    }
}

/// The names after a name table, which starts with the number of its entries.
pub open spec fn name_table_spec(names: Seq<Seq<char>>, b: Seq<u8>) -> Seq<Seq<char>> {
    if b.len() == 0 {
        names
    } else {
        table_names(names, b.skip(1), b[0] as nat)
    }
}

/// Adds the names of a name table.
fn parse_netbios_name_table(b: &[u8], names: &mut Vec<String>)
    ensures
        final(names).deep_view() == name_table_spec(old(names).deep_view(), b@),
{
    let total: usize = b.len();
    if total == 0 {
        return;
    }
    let mut left: u8 = b[0];
    let mut at: usize = 1;
    while left > 0 && total - at >= 18
        invariant
            1 <= at <= total,
            total == b@.len(),
            name_table_spec(old(names).deep_view(), b@) == table_names(
                names.deep_view(),
                b@.skip(at as int),
                left as nat,
            ),
        decreases left,
    {
        let ghost rest = b@.skip(at as int);
        let entry = vstd::slice::slice_subrange(b, at, at + 18);
        proof {
            assert(entry@ =~= rest.take(18));
            assert(rest.skip(18) =~= b@.skip(at + 18));
            assert(entry@.subrange(0, 15) =~= entry@.take(15));
        }
        let raw = chars(utf8_lossy(vstd::slice::slice_subrange(entry, 0, 15)).as_str());
        let name = trim(raw.as_slice());
        let suffix: u8 = entry[15];
        if name.len() > 0 && be16(entry, 16) < 0x8000 && (suffix == 0x00 || suffix == 0x03 || suffix
            == 0x20) {
            insert_sorted(names, text(name));
        }
        at = at + 18;
        left = left - 1;
    }
}

/// The position behind `count` questions; nothing when one is malformed or runs
/// past the packet.
pub open spec fn skip_questions(b: Seq<u8>, at: int, count: nat) -> Option<int>
    decreases count,
{
    if count == 0 {
        Some(at)
    } else {
        match skip_name_spec(b, at) {
            Some(next) => if next + 4 > b.len() {
                None
            } else {
                skip_questions(b, next + 4, (count - 1) as nat)
            },
            None => None,
        }
    }
}

/// The names after up to `count` answers, up to one that is malformed or runs
/// past the packet.
pub open spec fn answer_names(
    names: Seq<Seq<char>>,
    b: Seq<u8>,
    at: int,
    count: nat,
) -> Seq<Seq<char>>
    decreases count,
{
    if count == 0 {
        names
    } else {
        match skip_name_spec(b, at) {
            Some(next) => if next + 10 > b.len() {
                names
            } else {
                let n = bytes::be16_spec(b, next + 8) as int;
                let data = next + 10;
                if data + n > b.len() {
                    names
                } else {
                    let names = if bytes::be16_spec(b, next) == 0x0021 && n > 0 {
                        name_table_spec(names, b.subrange(data, data + n))
                    } else {
                        names
                    };
                    answer_names(names, b, data + n, (count - 1) as nat)
                }
            },
            None => names,
        }
    }
}

/// What a packet answers: the transaction and the names, in increasing order and
/// without repeats.
pub open spec fn netbios_response_spec(b: Seq<u8>) -> NetbiosResponseView {
    if b.len() < 12 {
        NetbiosResponseView { transaction_id: 0, names: seq![] }
    } else {
        NetbiosResponseView {
            transaction_id: bytes::be16_spec(b, 0),
            names: match skip_questions(b, 12, bytes::be16_spec(b, 4) as nat) {
                Some(at) => answer_names(seq![], b, at, bytes::be16_spec(b, 6) as nat),
                None => seq![],
            },
        }
    }
}

/// Reads the answer to a node status query.
pub fn parse_netbios_response(b: &[u8]) -> (r: NetbiosResponse)
    ensures
        r@ == netbios_response_spec(b@),
{
    let total: usize = b.len();
    if total < 12 {
        return NetbiosResponse::default();
    }
    let transaction_id: u16 = be16(b, 0);
    let questions: u16 = be16(b, 4);
    let mut names: Vec<String> = Vec::new();
    proof {
        assert(names.deep_view() =~= seq![]);
    }
    let mut at: usize = 12;
    let mut left: u16 = questions;
    while left > 0
        invariant
            total == b@.len(),
            12 <= total,
            at <= total,
            names.deep_view() == Seq::<Seq<char>>::empty(),
            transaction_id == bytes::be16_spec(b@, 0),
            questions == bytes::be16_spec(b@, 4),
            skip_questions(b@, 12, questions as nat) == skip_questions(b@, at as int, left as nat),
        decreases left,
    {
        match skip_nbns_name(b, at) {
            Some(next) => {
                if total - next < 4 {
                    return NetbiosResponse { transaction_id, names };
                }
                at = next + 4;
            },
            None => {
                return NetbiosResponse { transaction_id, names };
            },
        }
        left = left - 1;
    }
    let count: u16 = be16(b, 6);
    let ghost start = at as int;
    let mut left: u16 = count;
    while left > 0
        invariant
            total == b@.len(),
            12 <= total,
            at <= total,
            answer_names(seq![], b@, start, count as nat) == answer_names(
                names.deep_view(),
                b@,
                at as int,
                left as nat,
            ),
        ensures
            names.deep_view() == answer_names(seq![], b@, start, count as nat),
        decreases left,
    {
        let next: usize = match skip_nbns_name(b, at) {
            Some(next) => next,
            None => {
                break;
            },
        };
        if total - next < 10 {
            break;
        }
        let n: usize = be16(b, next + 8) as usize;
        let data: usize = next + 10;
        if total - data < n {
            break;
        }
        if be16(b, next) == 0x0021 && n > 0 {
            parse_netbios_name_table(vstd::slice::slice_subrange(b, data, data + n), &mut names);
        }
        at = data + n;
        left = left - 1;
    }
    NetbiosResponse { transaction_id, names }
}

} // verus!
