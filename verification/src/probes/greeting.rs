//! What SMB servers say of themselves, field by field.

use crate::bytes;
use crate::discovery::adverts;
use crate::probes::smb::{NtlmHostInfoView, SmbInfoView};
use crate::probes::smb;
use crate::text;
use vstd::prelude::*;

verus! {

/// The two bytes of a number, the low one first.
pub open spec fn low_first(v: int) -> Seq<u8> {
    seq![(v % 256) as u8, (v / 256) as u8]
}

/// Two bytes read back.
proof fn lemma_low_first(b: Seq<u8>, at: int, v: int)
    requires
        0 <= at,
        at + 2 <= b.len(),
        0 <= v < 0x1_0000,
        b.subrange(at, at + 2) == low_first(v),
    ensures
        bytes::le16_spec(b, at) == v,
{
    assert(b[at] == b.subrange(at, at + 2)[0]);
    assert(b[at + 1] == b.subrange(at, at + 2)[1]);
}

/// A negotiate response: the mark, the status of success, the command, and the body with
/// the security mode, the dialect, the identifier of the server, and a token behind it.
pub open spec fn negotiate_wire(
    header: Seq<u8>,
    more: Seq<u8>,
    mode: int,
    dialect: int,
    reserved: Seq<u8>,
    guid: Seq<u8>,
    limits: Seq<u8>,
    last: Seq<u8>,
    token: Seq<u8>,
) -> Seq<u8> {
    seq![0xfeu8, 0x53, 0x4d, 0x42] + header + seq![0u8, 0, 0, 0] + seq![0u8, 0] + more + low_first(65)
        + low_first(mode) + low_first(dialect) + reserved + guid + limits + low_first(128)
        + low_first(token.len() as int) + last + token
}

/// What a negotiate response says is read from its place: the dialect by its number, that
/// signatures are demanded by a bit of the security mode, and the identifier of the server
/// by its sixteen bytes. System and server are named by what can be printed of the token.
#[verifier::rlimit(60)]
pub proof fn law_negotiate_response_reads_back(
    header: Seq<u8>,
    more: Seq<u8>,
    mode: int,
    dialect: int,
    reserved: Seq<u8>,
    guid: Seq<u8>,
    limits: Seq<u8>,
    last: Seq<u8>,
    token: Seq<u8>,
)
    requires
        header.len() == 4,
        more.len() == 50,
        0 <= mode < 0x1_0000,
        0 <= dialect < 0x1_0000,
        reserved.len() == 2,
        guid.len() == 16,
        limits.len() == 32,
        last.len() == 4,
        token.len() < 0x1_0000,
    ensures
        ({
            let read = smb::negotiate_response_spec(
                negotiate_wire(header, more, mode, dialect, reserved, guid, limits, last, token),
            );
            let tokens = smb::ascii_tokens_spec(token);
            &&& read is Some
            &&& dialect == 0x0202 ==> read->0.dialect == Some("SMB 2.0.2"@)
            &&& dialect == 0x0210 ==> read->0.dialect == Some("SMB 2.1"@)
            &&& dialect == 0x0300 ==> read->0.dialect == Some("SMB 3.0"@)
            &&& dialect == 0x0302 ==> read->0.dialect == Some("SMB 3.0.2"@)
            &&& dialect == 0x0311 ==> read->0.dialect == Some("SMB 3.1.1"@)
            &&& read->0.signing_required == Some(mode / 2 % 2 == 1)
            &&& read->0.server_guid == Some(text::hex_spec(guid))
            &&& first_naming(tokens, "windows"@, "windows"@, read->0.native_os)
            &&& first_naming(tokens, "samba"@, "lan manager"@, read->0.native_lanman)
            &&& read->0.netbios_computer_name is None
            &&& read->0.dns_computer_name is None
        }),
{
    let b = negotiate_wire(header, more, mode, dialect, reserved, guid, limits, last, token);
    assert(b.len() == 128 + token.len());
    assert(b.take(4) =~= smb::smb2_magic());
    assert(b[8] == 0 && b[9] == 0 && b[10] == 0 && b[11] == 0 && b[12] == 0 && b[13] == 0);
    assert(b.subrange(64, 66) =~= low_first(65));
    lemma_low_first(b, 64, 65);
    assert(b.subrange(66, 68) =~= low_first(mode));
    lemma_low_first(b, 66, mode);
    assert(b.subrange(68, 70) =~= low_first(dialect));
    lemma_low_first(b, 68, dialect);
    assert(b.subrange(72, 88) =~= guid);
    assert(b.subrange(120, 122) =~= low_first(128));
    lemma_low_first(b, 120, 128);
    assert(b.subrange(122, 124) =~= low_first(token.len() as int));
    lemma_low_first(b, 122, token.len() as int);
    assert(b.subrange(128, 128 + token.len() as int) =~= token);
    let tokens = smb::ascii_tokens_spec(token);
    lemma_first_naming(tokens, "windows"@, "windows"@);
    lemma_first_naming(tokens, "samba"@, "lan manager"@);
}

/// A token names one of two things.
pub open spec fn names(token: Seq<char>, a: Seq<char>, b: Seq<char>) -> bool {
    text::contains_spec(text::lower_spec(token), a) || text::contains_spec(text::lower_spec(token), b)
}

/// A text is the first token that names one of two things; there is none where no token
/// does.
pub open spec fn first_naming(
    tokens: Seq<Seq<char>>,
    a: Seq<char>,
    b: Seq<char>,
    told: Option<Seq<char>>,
) -> bool {
    match told {
        Some(t) => exists|i: int|
            0 <= i < tokens.len() && #[trigger] tokens[i] == t && names(t, a, b) && forall|j: int|
                0 <= j < i ==> !names(#[trigger] tokens[j], a, b),
        None => forall|j: int| 0 <= j < tokens.len() ==> !names(#[trigger] tokens[j], a, b),
    }
}

/// The first token that names one of two things.
proof fn lemma_first_naming(tokens: Seq<Seq<char>>, a: Seq<char>, b: Seq<char>)
    ensures
        first_naming(tokens, a, b, smb::token_with(tokens, a, b)),
    decreases tokens.len(),
{
    if tokens.len() > 0 {
        if names(tokens[0], a, b) {
            assert(tokens[0] == smb::token_with(tokens, a, b)->0);
        } else {
            let tail = tokens.drop_first();
            lemma_first_naming(tail, a, b);
            let told = smb::token_with(tokens, a, b);
            match told {
                Some(t) => {
                    let i = choose|i: int|
                        0 <= i < tail.len() && #[trigger] tail[i] == t && names(t, a, b) && forall|
                            j: int,
                        |
                            0 <= j < i ==> !names(#[trigger] tail[j], a, b);
                    assert(tokens[i + 1] == t);
                    assert forall|j: int| 0 <= j < i + 1 implies !names(
                        #[trigger] tokens[j],
                        a,
                        b,
                    ) by {
                        if j > 0 {
                            assert(tail[j - 1] == tokens[j]);
                        }
                    }
                },
                None => {
                    assert forall|j: int| 0 <= j < tokens.len() implies !names(
                        #[trigger] tokens[j],
                        a,
                        b,
                    ) by {
                        if j > 0 {
                            assert(tail[j - 1] == tokens[j]);
                        }
                    }
                },
            }
        }
    }
}

/// The characters can be written with one unit of UTF-16 each.
pub open spec fn basic(d: Seq<char>) -> bool {
    forall|i: int| 0 <= i < d.len() ==> (#[trigger] d[i]) as u32 <= 0xffff
}

/// A text in UTF-16, the low byte of each unit first.
pub open spec fn units_wire(d: Seq<char>) -> Seq<u8> {
    Seq::new(
        2 * d.len(),
        |i: int|
            if i % 2 == 0 {
                (d[i / 2] as u32 % 256) as u8
            } else {
                (d[i / 2] as u32 / 256) as u8
            },
    )
}

/// A character that fits in one unit is that unit.
proof fn lemma_unit(c: char)
    requires
        c as u32 <= 0xffff,
    ensures
        (c as u32 as u16) as char == c,
        c as u32 as u16 == c as u32,
        (c as u32 as u16) < 0xd800 || (c as u32 as u16) > 0xdfff,
{
}

/// The text that units spell.
proof fn lemma_units(d: Seq<char>)
    requires
        basic(d),
    ensures
        text::utf16_spec(d.map_values(|c: char| c as u32 as u16)) == Some(d),
    decreases d.len(),
{
    let u = d.map_values(|c: char| c as u32 as u16);
    if d.len() > 0 {
        let rest = d.drop_first();
        assert forall|i: int| 0 <= i < rest.len() implies (#[trigger] rest[i]) as u32 <= 0xffff by {
            assert(rest[i] == d[i + 1]);
        }
        lemma_units(rest);
        assert(u.drop_first() =~= rest.map_values(|c: char| c as u32 as u16));
        lemma_unit(d[0]);
        assert(u[0] as char == d[0]);
        assert(d =~= seq![d[0]] + rest);
    } else {
        assert(d =~= seq![]);
    }
}

/// A clean text in UTF-16 reads back.
proof fn lemma_units_text(d: Seq<char>)
    requires
        basic(d),
        adverts::clean(d),
    ensures
        smb::utf16_text(units_wire(d)) == Some(d),
        units_wire(d).len() == 2 * d.len(),
{
    let b = units_wire(d);
    let u = smb::utf16_units(b);
    lemma_units(d);
    let w = d.map_values(|c: char| c as u32 as u16);
    assert forall|i: int| 0 <= i < d.len() implies u[i] == #[trigger] w[i] by {
        assert(b[2 * i] == (d[i] as u32 % 256) as u8);
        assert((2 * i + 1) / 2 == i && (2 * i + 1) % 2 == 1);
        assert(b[2 * i + 1] == (d[i] as u32 / 256) as u8);
        lemma_unit(d[i]);
    }
    assert(u =~= w);
    assert(text::trim_end_char_spec(d, '\0') == d);
    assert(text::trim_spec(d) == d);
}

/// A name of a machine with its kind.
pub struct Named {
    pub id: int,
    pub words: Seq<char>,
}

/// The names can be written and read.
pub open spec fn readable(pairs: Seq<Named>) -> bool {
    forall|i: int|
        0 <= i < pairs.len() ==> 0 < (#[trigger] pairs[i]).id < 0x1_0000 && basic(pairs[i].words)
            && adverts::clean(pairs[i].words) && pairs[i].words.len() < 0x8000
}

/// The names on the wire: the kind, the length, and the text of each, and an end behind
/// them.
pub open spec fn pairs_wire(pairs: Seq<Named>) -> Seq<u8>
    decreases pairs.len(),
{
    if pairs.len() == 0 {
        seq![0u8, 0, 0, 0]
    } else {
        low_first(pairs[0].id) + low_first(2 * pairs[0].words.len() as int) + units_wire(
            pairs[0].words,
        ) + pairs_wire(pairs.drop_first())
    }
}

/// The last name of a kind.
pub open spec fn last_named(pairs: Seq<Named>, id: int) -> Option<Seq<char>>
    decreases pairs.len(),
{
    if pairs.len() == 0 {
        None
    } else {
        match last_named(pairs.drop_first(), id) {
            Some(t) => Some(t),
            None => if pairs[0].id == id {
                Some(pairs[0].words)
            } else {
                None
            },
        }
    }
}

/// What was known, unless something else is said.
pub open spec fn unless_said(
    before: Option<Seq<char>>,
    after: Option<Seq<char>>,
    said: Option<Seq<char>>,
) -> bool {
    if said is Some {
        after == said
    } else {
        after == before
    }
}

/// The names of a challenge read back by their kinds: one is the NetBIOS name of the
/// machine, two that of its domain, three its DNS name, and four that of its domain.
pub proof fn law_challenge_names_read_back(before: NtlmHostInfoView, pairs: Seq<Named>)
    requires
        readable(pairs),
    ensures
        ({
            let read = before.with_pairs(pairs_wire(pairs));
            &&& read is Some
            &&& unless_said(
                before.netbios_computer_name,
                read->0.netbios_computer_name,
                last_named(pairs, 1),
            )
            &&& unless_said(
                before.netbios_domain_name,
                read->0.netbios_domain_name,
                last_named(pairs, 2),
            )
            &&& unless_said(
                before.dns_computer_name,
                read->0.dns_computer_name,
                last_named(pairs, 3),
            )
            &&& unless_said(before.dns_domain_name, read->0.dns_domain_name, last_named(pairs, 4))
            &&& read->0.target_name == before.target_name
        }),
    decreases pairs.len(),
{
    let b = pairs_wire(pairs);
    if pairs.len() > 0 {
        let p = pairs[0];
        let tail = pairs.drop_first();
        let n = 2 * p.words.len() as int;
        assert(readable(tail)) by {
            assert forall|i: int| 0 <= i < tail.len() implies 0 < (#[trigger] tail[i]).id
                < 0x1_0000 && basic(tail[i].words) && adverts::clean(tail[i].words)
                && tail[i].words.len() < 0x8000 by {
                assert(tail[i] == pairs[i + 1]);
            }
        }
        lemma_units_text(p.words);
        assert(b.subrange(0, 2) =~= low_first(p.id));
        lemma_low_first(b, 0, p.id);
        assert(b.subrange(2, 4) =~= low_first(n));
        lemma_low_first(b, 2, n);
        assert(b.subrange(4, 4 + n) =~= units_wire(p.words));
        assert(b.skip(4 + n) =~= pairs_wire(tail));
        law_challenge_names_read_back(before.with_pair(p.id as u16, p.words), tail);
    } else {
        assert(bytes::le16_spec(b, 0) == 0);
    }
}

/// A challenge on the wire: the mark, the kind of message, where the name of the target
/// stands, the flags, the challenge, where the other names stand, and the names.
pub open spec fn challenge_wire(
    flags: Seq<u8>,
    filler: Seq<u8>,
    target: Seq<u8>,
    pairs: Seq<u8>,
) -> Seq<u8> {
    seq![0x4eu8, 0x54, 0x4c, 0x4d, 0x53, 0x53, 0x50, 0x00] + seq![2u8, 0, 0, 0] + (low_first(
        target.len() as int,
    ) + low_first(target.len() as int) + seq![48u8, 0, 0, 0]) + flags + filler + (low_first(
        pairs.len() as int,
    ) + low_first(pairs.len() as int) + (low_first(48 + target.len() as int) + seq![0u8, 0]))
        + target + pairs
}

/// A challenge names its target in the encoding that its flags announce, and the machine
/// by its other names.
#[verifier::rlimit(60)]
pub proof fn law_challenge_reads_back(
    flags: Seq<u8>,
    filler: Seq<u8>,
    target: Seq<char>,
    pairs: Seq<Named>,
)
    requires
        flags.len() == 4,
        filler.len() == 16,
        basic(target),
        adverts::clean(target),
        target.len() < 0x4000,
        readable(pairs),
        pairs_wire(pairs).len() < 0x8000,
        flags[0] % 2 == 1,
    ensures
        ({
            let read = smb::challenge_spec(
                challenge_wire(flags, filler, units_wire(target), pairs_wire(pairs)),
            );
            &&& read is Some
            &&& read->0.target_name == Some(target)
            &&& read->0.netbios_computer_name == last_named(pairs, 1)
            &&& read->0.netbios_domain_name == last_named(pairs, 2)
            &&& read->0.dns_computer_name == last_named(pairs, 3)
            &&& read->0.dns_domain_name == last_named(pairs, 4)
        }),
{
    let t = units_wire(target);
    let p = pairs_wire(pairs);
    let m = challenge_wire(flags, filler, t, p);
    lemma_units_text(target);
    assert(m.len() == 48 + t.len() + p.len());
    assert(m[8] == 2 && m[9] == 0 && m[10] == 0 && m[11] == 0);
    assert(m.subrange(12, 14) =~= low_first(t.len() as int));
    lemma_low_first(m, 12, t.len() as int);
    assert(m[16] == 48 && m[17] == 0 && m[18] == 0 && m[19] == 0);
    assert(bytes::le32_spec(m, 16) == 48);
    assert(m[20] == flags[0] && m[21] == flags[1] && m[22] == flags[2] && m[23] == flags[3]);
    assert(bytes::le32_spec(m, 20) % 2 == 1);
    assert(m.subrange(40, 42) =~= low_first(p.len() as int));
    lemma_low_first(m, 40, p.len() as int);
    assert(m.subrange(44, 46) =~= low_first(48 + t.len() as int));
    lemma_low_first(m, 44, 48 + t.len() as int);
    assert(m[46] == 0 && m[47] == 0);
    assert(bytes::le32_spec(m, 44) == 48 + t.len());
    assert(m.subrange(48, 48 + t.len() as int) =~= t);
    assert(m.subrange(48 + t.len() as int, 48 + t.len() as int + p.len()) =~= p);
    let start = NtlmHostInfoView {
        target_name: Some(target),
        netbios_computer_name: None,
        netbios_domain_name: None,
        dns_computer_name: None,
        dns_domain_name: None,
    };
    law_challenge_names_read_back(start, pairs);
}

/// The names of the machine that a challenge gives are those of the server: its NetBIOS
/// name and its DNS name, each in its place. Nothing else changes.
pub proof fn law_server_takes_its_names(info: SmbInfoView, given: NtlmHostInfoView)
    ensures
        ({
            let after = smb::with_host_names(info, given);
            &&& after.netbios_computer_name == given.netbios_computer_name
            &&& after.dns_computer_name == given.dns_computer_name
            &&& after.dialect == info.dialect
            &&& after.signing_required == info.signing_required
            &&& after.server_guid == info.server_guid
            &&& after.native_os == info.native_os
            &&& after.native_lanman == info.native_lanman
        }),
{
}

/// Runs of five or more bytes that can be printed are tokens; shorter runs are none, and a
/// byte that cannot be printed ends a run.
pub proof fn law_runs_of_printable_bytes_are_tokens(run: Seq<u8>, end: u8, rest: Seq<u8>)
    requires
        forall|i: int| 0 <= i < run.len() ==> 0x20 <= #[trigger] run[i] <= 0x7e,
        end < 0x20 || end > 0x7e,
    ensures
        smb::ascii_tokens_spec(run + seq![end] + rest) == (if run.len() >= 5 {
            seq![text::trim_spec(text::utf8_lossy_spec(run))]
        } else {
            seq![]
        }) + smb::ascii_tokens_spec(rest),
{
    lemma_run(seq![], run, end, rest);
    assert(Seq::<u8>::empty() + run =~= run);
}

/// A run goes on.
proof fn lemma_run(before: Seq<u8>, run: Seq<u8>, end: u8, rest: Seq<u8>)
    requires
        forall|i: int| 0 <= i < run.len() ==> 0x20 <= #[trigger] run[i] <= 0x7e,
        end < 0x20 || end > 0x7e,
    ensures
        smb::tokens_from(run + seq![end] + rest, before) == smb::token_of(before + run)
            + smb::tokens_from(rest, seq![]),
    decreases run.len(),
{
    let b = run + seq![end] + rest;
    if run.len() == 0 {
        assert(b[0] == end);
        assert(b.drop_first() =~= rest);
        assert(before + run =~= before);
    } else {
        let tail = run.drop_first();
        assert forall|i: int| 0 <= i < tail.len() implies 0x20 <= #[trigger] tail[i] <= 0x7e by {
            assert(tail[i] == run[i + 1]);
        }
        assert(b[0] == run[0]);
        assert(b.drop_first() =~= tail + seq![end] + rest);
        lemma_run(before.push(run[0]), tail, end, rest);
        assert(before.push(run[0]) + tail =~= before + run);
    }
}

/// A negotiate request stands behind a session header that gives its length, is marked as
/// SMB, negotiates, and offers the dialects from 2.0.2 to 3.1.1.
pub proof fn law_negotiate_request_offers_dialects()
    ensures
        ({
            let b = smb::session_packet(smb::smb2_header_spec(0, 0) + smb::negotiate_body());
            &&& b.len() == 114
            &&& b[0] == 0 && b[1] * 65536 + b[2] * 256 + b[3] == 110
            &&& b.subrange(4, 8) == seq![0xfeu8, 0x53, 0x4d, 0x42]
            &&& b.subrange(16, 18) == low_first(0)
            &&& b.subrange(68, 70) == low_first(36)
            &&& b.subrange(70, 72) == low_first(5)
            &&& b.subrange(104, 106) == low_first(0x0202)
            &&& b.subrange(106, 108) == low_first(0x0210)
            &&& b.subrange(108, 110) == low_first(0x0300)
            &&& b.subrange(110, 112) == low_first(0x0302)
            &&& b.subrange(112, 114) == low_first(0x0311)
        }),
{
    let body = smb::negotiate_body();
    let head = smb::smb2_header_spec(0, 0);
    assert(head.len() == 64);
    assert(body.len() == 46);
    let b = smb::session_packet(head + body);
    assert(b.subrange(4, 8) =~= seq![0xfeu8, 0x53, 0x4d, 0x42]);
    assert(b.subrange(16, 18) =~= low_first(0));
    assert(b.subrange(68, 70) =~= low_first(36));
    assert(b.subrange(70, 72) =~= low_first(5));
    assert(b.subrange(104, 106) =~= low_first(0x0202));
    assert(b.subrange(106, 108) =~= low_first(0x0210));
    assert(b.subrange(108, 110) =~= low_first(0x0300));
    assert(b.subrange(110, 112) =~= low_first(0x0302));
    assert(b.subrange(112, 114) =~= low_first(0x0311));
}

} // verus!
