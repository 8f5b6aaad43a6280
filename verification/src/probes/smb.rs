//! SMB2 identity probe.
//!
//! The probe stops at negotiation and session-setup metadata. It does not
//! authenticate, enumerate shares, or request file data; the goal is to collect
//! stack, dialect, signing, and host-name evidence for device identification.

use crate::ber::{oid, tlv};
use crate::ber;
use crate::bytes::{le16, le32, push_all, push_le16, push_le32, same_bytes};
use crate::bytes;
use crate::text::{
    chars, contains, from_utf16, lower, owned, push_hex_byte, text, trim, trim_end_char, utf8_lossy,
};
use crate::text;
use vstd::prelude::*;

verus! {

/// What an SMB server says of itself before authentication.
#[derive(Debug, PartialEq, Eq)]
pub struct SmbInfo {
    pub dialect: Option<String>,
    pub signing_required: Option<bool>,
    pub server_guid: Option<String>,
    pub native_os: Option<String>,
    pub native_lanman: Option<String>,
    pub netbios_computer_name: Option<String>,
    pub dns_computer_name: Option<String>,
}

/// The mathematical content of a [`SmbInfo`].
#[verifier::ext_equal]
pub struct SmbInfoView {
    pub dialect: Option<Seq<char>>,
    pub signing_required: Option<bool>,
    pub server_guid: Option<Seq<char>>,
    pub native_os: Option<Seq<char>>,
    pub native_lanman: Option<Seq<char>>,
    pub netbios_computer_name: Option<Seq<char>>,
    pub dns_computer_name: Option<Seq<char>>,
}

impl View for SmbInfo {
    type V = SmbInfoView;

    open spec fn view(&self) -> SmbInfoView {
        SmbInfoView {
            dialect: self.dialect.deep_view(),
            signing_required: self.signing_required,
            server_guid: self.server_guid.deep_view(),
            native_os: self.native_os.deep_view(),
            native_lanman: self.native_lanman.deep_view(),
            netbios_computer_name: self.netbios_computer_name.deep_view(),
            dns_computer_name: self.dns_computer_name.deep_view(),
        }
    }
}

impl DeepView for SmbInfo {
    type V = SmbInfoView;

    open spec fn deep_view(&self) -> SmbInfoView {
        self@
    }
}

impl Clone for SmbInfo {
    fn clone(&self) -> (r: Self)
        ensures
            r@ == self@,
    {
        let r = SmbInfo {
            dialect: self.dialect.clone(),
            signing_required: self.signing_required,
            server_guid: self.server_guid.clone(),
            native_os: self.native_os.clone(),
            native_lanman: self.native_lanman.clone(),
            netbios_computer_name: self.netbios_computer_name.clone(),
            dns_computer_name: self.dns_computer_name.clone(),
        };
        proof {
            assert(r.dialect.deep_view() =~= self.dialect.deep_view());
            assert(r.server_guid.deep_view() =~= self.server_guid.deep_view());
            assert(r.native_os.deep_view() =~= self.native_os.deep_view());
            assert(r.native_lanman.deep_view() =~= self.native_lanman.deep_view());
            assert(r.netbios_computer_name.deep_view() =~= self.netbios_computer_name.deep_view());
            assert(r.dns_computer_name.deep_view() =~= self.dns_computer_name.deep_view());
        }
        r
    }
}

/// The names in an NTLM challenge.
#[derive(Debug, PartialEq, Eq)]
pub struct NtlmHostInfo {
    pub target_name: Option<String>,
    pub netbios_computer_name: Option<String>,
    pub netbios_domain_name: Option<String>,
    pub dns_computer_name: Option<String>,
    pub dns_domain_name: Option<String>,
}

/// The mathematical content of a [`NtlmHostInfo`].
#[verifier::ext_equal]
pub struct NtlmHostInfoView {
    pub target_name: Option<Seq<char>>,
    pub netbios_computer_name: Option<Seq<char>>,
    pub netbios_domain_name: Option<Seq<char>>,
    pub dns_computer_name: Option<Seq<char>>,
    pub dns_domain_name: Option<Seq<char>>,
}

impl View for NtlmHostInfo {
    type V = NtlmHostInfoView;

    open spec fn view(&self) -> NtlmHostInfoView {
        NtlmHostInfoView {
            target_name: self.target_name.deep_view(),
            netbios_computer_name: self.netbios_computer_name.deep_view(),
            netbios_domain_name: self.netbios_domain_name.deep_view(),
            dns_computer_name: self.dns_computer_name.deep_view(),
            dns_domain_name: self.dns_domain_name.deep_view(),
        }
    }
}

impl DeepView for NtlmHostInfo {
    type V = NtlmHostInfoView;

    open spec fn deep_view(&self) -> NtlmHostInfoView {
        self@
    }
}

impl Clone for NtlmHostInfo {
    fn clone(&self) -> (r: Self)
        ensures
            r@ == self@,
    {
        let r = NtlmHostInfo {
            target_name: self.target_name.clone(),
            netbios_computer_name: self.netbios_computer_name.clone(),
            netbios_domain_name: self.netbios_domain_name.clone(),
            dns_computer_name: self.dns_computer_name.clone(),
            dns_domain_name: self.dns_domain_name.clone(),
        };
        proof {
            assert(r.target_name.deep_view() =~= self.target_name.deep_view());
            assert(r.netbios_computer_name.deep_view() =~= self.netbios_computer_name.deep_view());
            assert(r.netbios_domain_name.deep_view() =~= self.netbios_domain_name.deep_view());
            assert(r.dns_computer_name.deep_view() =~= self.dns_computer_name.deep_view());
            assert(r.dns_domain_name.deep_view() =~= self.dns_domain_name.deep_view());
        }
        r
    }
}

impl Default for NtlmHostInfo {
    fn default() -> (r: Self)
        ensures
            r@ == (NtlmHostInfoView {
                target_name: None,
                netbios_computer_name: None,
                netbios_domain_name: None,
                dns_computer_name: None,
                dns_domain_name: None,
            }),
    {
        let r = NtlmHostInfo {
            target_name: None,
            netbios_computer_name: None,
            netbios_domain_name: None,
            dns_computer_name: None,
            dns_domain_name: None,
        };
        proof {
        }
        r
    }
}

/// The largest response, in bytes, that is read.
pub const MAX_SMB_RESPONSE_BYTES: usize = 131072;

/// `n` zero bytes.
pub open spec fn zeros(n: nat) -> Seq<u8> {
    Seq::new(n, |i: int| 0u8)
}

/// Appends zero bytes.
fn push_zeros(out: &mut Vec<u8>, n: usize)
    ensures
        final(out)@ == old(out)@ + zeros(n as nat),
{
    let ghost start = out@;
    let mut i: usize = 0;
    proof {
        assert(start =~= start + zeros(0));
    }
    while i < n
        invariant
            i <= n,
            out@ == start + zeros(i as nat),
        decreases n - i,
    {
        out.push(0);
        i = i + 1;
        proof {
            assert(out@ =~= start + zeros(i as nat));
        }
    }
}

/// The mark at the start of every SMB2 message.
pub open spec fn smb2_magic() -> Seq<u8> {
    seq![0xfe, 0x53, 0x4d, 0x42]
}

/// The header of a request.
pub open spec fn smb2_header_spec(command: u16, message_id: u8) -> Seq<u8> {
    smb2_magic() + bytes::le16_bytes(64) + zeros(6) + bytes::le16_bytes(command) + bytes::le16_bytes(1) + zeros(8)
        + seq![message_id] + zeros(7) + bytes::le32_bytes(0xfeff) + zeros(28)
}

/// Builds the header of a request.
fn smb2_header(command: u16, message_id: u8) -> (r: Vec<u8>)
    ensures
        r@ == smb2_header_spec(command, message_id),
{
    let mut out: Vec<u8> = Vec::new();
    out.push(0xfe);
    out.push(0x53);
    out.push(0x4d);
    out.push(0x42);
    proof {
        assert(out@ =~= smb2_magic());
    }
    push_le16(&mut out, 64);
    push_zeros(&mut out, 6);
    push_le16(&mut out, command);
    push_le16(&mut out, 1);
    push_zeros(&mut out, 8);
    let ghost before = out@;
    out.push(message_id);
    proof {
        assert(out@ =~= before + seq![message_id]);
    }
    push_zeros(&mut out, 7);
    push_le32(&mut out, 0xfeff);
    push_zeros(&mut out, 28);
    out
}

/// A message behind the session header that gives its length.
pub open spec fn session_packet(message: Seq<u8>) -> Seq<u8> {
    let n = message.len() as int;
    seq![0u8, (n / 0x1_0000 % 0x100) as u8, (n / 0x100 % 0x100) as u8, (n % 0x100) as u8] + message
}

/// Puts a message behind a session header.
fn wrap_session(message: &Vec<u8>) -> (r: Vec<u8>)
    ensures
        r@ == session_packet(message@),
{
    let n: usize = message.len();
    let mut out: Vec<u8> = Vec::new();
    out.push(0);
    out.push((n / 0x1_0000 % 0x100) as u8);
    out.push((n / 0x100 % 0x100) as u8);
    out.push((n % 0x100) as u8);
    push_all(&mut out, message.as_slice());
    proof {
        assert(out@ =~= session_packet(message@));
    }
    out
}

/// The body of a negotiate request, which offers the dialects 2.0.2 to 3.1.1.
pub open spec fn negotiate_body() -> Seq<u8> {
    bytes::le16_bytes(36) + bytes::le16_bytes(5) + bytes::le16_bytes(1) + bytes::le16_bytes(0) + bytes::le32_bytes(0) + seq![
        0x46u8,
        0x49,
        0x4e,
        0x47,
        0x2d,
        0x52,
        0x53,
        0x2d,
        0x53,
        0x4d,
        0x42,
        0x32,
        0x30,
        0x32,
        0x36,
        0x00,
    ] + bytes::le32_bytes(0) + bytes::le16_bytes(0) + bytes::le16_bytes(0) + bytes::le16_bytes(0x0202) + bytes::le16_bytes(0x0210)
        + bytes::le16_bytes(0x0300) + bytes::le16_bytes(0x0302) + bytes::le16_bytes(0x0311)
}

/// Builds a negotiate request.
///
/// One request offers the modern dialects. The dialect that the server chooses and
/// its signing mode are enough to identify many NAS and Windows hosts.
pub fn smb2_negotiate_request() -> (r: Vec<u8>)
    ensures
        r@ == session_packet(smb2_header_spec(0, 0) + negotiate_body()),
{
    let mut body: Vec<u8> = Vec::new();
    push_le16(&mut body, 36);
    push_le16(&mut body, 5);
    push_le16(&mut body, 1);
    push_le16(&mut body, 0);
    push_le32(&mut body, 0);
    let client: [u8; 16] = [
        0x46,
        0x49,
        0x4e,
        0x47,
        0x2d,
        0x52,
        0x53,
        0x2d,
        0x53,
        0x4d,
        0x42,
        0x32,
        0x30,
        0x32,
        0x36,
        0x00,
    ];
    push_all(&mut body, &client);
    push_le32(&mut body, 0);
    push_le16(&mut body, 0);
    push_le16(&mut body, 0);
    push_le16(&mut body, 0x0202);
    push_le16(&mut body, 0x0210);
    push_le16(&mut body, 0x0300);
    push_le16(&mut body, 0x0302);
    push_le16(&mut body, 0x0311);
    proof {
        assert(body@ =~= negotiate_body());
    }
    let mut message: Vec<u8> = smb2_header(0, 0);
    message.append(&mut body);
    wrap_session(&message)
}

/// The NTLM token that opens a negotiation.
pub open spec fn ntlm_negotiate_spec() -> Seq<u8> {
    seq![0x4eu8, 0x54, 0x4c, 0x4d, 0x53, 0x53, 0x50, 0x00] + bytes::le32_bytes(1) + bytes::le32_bytes(0x0088_8207)
        + zeros(16)
}

/// Builds the NTLM token that opens a negotiation.
fn ntlm_negotiate_message() -> (r: Vec<u8>)
    ensures
        r@ == ntlm_negotiate_spec(),
{
    let mut out: Vec<u8> = Vec::new();
    let mark: [u8; 8] = [0x4e, 0x54, 0x4c, 0x4d, 0x53, 0x53, 0x50, 0x00];
    push_all(&mut out, &mark);
    push_le32(&mut out, 1);
    push_le32(&mut out, 0x0088_8207);
    push_zeros(&mut out, 16);
    proof {
        assert(out@ =~= ntlm_negotiate_spec());
    }
    out
}

/// The object identifier of NTLM.
pub const NTLM_OID: [u32; 10] = [1, 3, 6, 1, 4, 1, 311, 2, 2, 10];

/// The object identifier of SPNEGO.
pub const SPNEGO_OID: [u32; 7] = [1, 3, 6, 1, 5, 5, 2];

/// The NTLM token wrapped in SPNEGO.
pub open spec fn spnego_spec() -> Seq<u8> {
    let mech_types = ber::tlv_spec(0xa0, ber::tlv_spec(0x30, ber::tlv_spec(0x06, ber::oid_body(NTLM_OID@))));
    let mech_token = ber::tlv_spec(0xa2, ber::tlv_spec(0x04, ntlm_negotiate_spec()));
    let init = ber::tlv_spec(0xa0, ber::tlv_spec(0x30, mech_types + mech_token));
    ber::tlv_spec(0x60, ber::tlv_spec(0x06, ber::oid_body(SPNEGO_OID@)) + init)
}

/// Builds the NTLM token wrapped in SPNEGO, to which servers respond with a
/// challenge that holds their names.
fn spnego_ntlm_negotiate_blob() -> (r: Vec<u8>)
    ensures
        r@ == spnego_spec(),
{
    let mut inner: Vec<u8> = tlv(0xa0, tlv(0x30, oid(&NTLM_OID).as_slice()).as_slice());
    let mut token: Vec<u8> = tlv(0xa2, tlv(0x04, ntlm_negotiate_message().as_slice()).as_slice());
    inner.append(&mut token);
    let mut init: Vec<u8> = tlv(0xa0, tlv(0x30, inner.as_slice()).as_slice());
    let mut body: Vec<u8> = oid(&SPNEGO_OID);
    body.append(&mut init);
    tlv(0x60, body.as_slice())
}

/// The body of a session-setup request that carries a token.
pub open spec fn session_setup_body(token: Seq<u8>) -> Seq<u8> {
    bytes::le16_bytes(25) + seq![0u8, 1] + bytes::le32_bytes(0) + bytes::le32_bytes(0) + bytes::le16_bytes(88) + bytes::le16_bytes(
        token.len() as u16,
    ) + zeros(8) + token
}

/// Builds a session-setup request with an NTLM token.
pub fn smb2_session_setup_request() -> (r: Vec<u8>)
    ensures
        r@ == session_packet(smb2_header_spec(1, 1) + session_setup_body(spnego_spec())),
{
    let mut token = spnego_ntlm_negotiate_blob();
    let mut body: Vec<u8> = Vec::new();
    push_le16(&mut body, 25);
    body.push(0);
    body.push(1);
    push_le32(&mut body, 0);
    push_le32(&mut body, 0);
    push_le16(&mut body, 88);
    push_le16(
        &mut body,
        #[verifier::truncate]
        (token.len() as u16),
    );
    push_zeros(&mut body, 8);
    let ghost code = token@;
    body.append(&mut token);
    proof {
        assert(body@ =~= session_setup_body(code));
    }
    let mut message: Vec<u8> = smb2_header(1, 1);
    message.append(&mut body);
    wrap_session(&message)
}

/// What the four bytes of a session header say.
#[derive(Clone, Copy, Debug, PartialEq, Eq, Structural)]
pub enum SessionStep {
    /// A keep-alive: another header follows.
    KeepAlive,
    /// Nothing that can be read.
    Refused,
    /// A payload of this many bytes follows.
    Payload(usize),
}

/// The length in a session header.
pub open spec fn session_length(header: Seq<u8>) -> int {
    header[1] * 0x1_0000 + header[2] * 0x100 + header[3]
}

/// The length of the payload that a session header announces.
pub fn netbios_session_payload_len(header: [u8; 4]) -> (r: usize)
    ensures
        r == session_length(header@),
{
    header[1] as usize * 0x1_0000 + header[2] as usize * 0x100 + header[3] as usize
}

/// What a session header says: an empty keep-alive is skipped, and of messages
/// those with a payload of up to `max` bytes are read.
pub open spec fn session_step_spec(header: Seq<u8>, max: usize) -> SessionStep {
    let n = session_length(header);
    if header[0] == 0x85 && n == 0 {
        SessionStep::KeepAlive
    } else if header[0] != 0 || n == 0 || n > max {
        SessionStep::Refused
    } else {
        SessionStep::Payload(n as usize)
    }
}

/// Decides what follows a session header.
pub fn session_step(header: [u8; 4], max: usize) -> (r: SessionStep)
    ensures
        r == session_step_spec(header@, max),
{
    let n: usize = netbios_session_payload_len(header);
    if header[0] == 0x85 && n == 0 {
        SessionStep::KeepAlive
    } else if header[0] != 0 || n == 0 || n > max {
        SessionStep::Refused
    } else {
        SessionStep::Payload(n)
    }
}

/// A message that was put behind a session header is announced with its length,
/// and its SMB2 mark is found behind that header.
pub proof fn law_session_header_announces(message: Seq<u8>, max: usize)
    requires
        0 < message.len() < 0x100_0000,
        message.len() <= max,
    ensures
        session_step_spec(session_packet(message).take(4), max) == SessionStep::Payload(
            message.len() as usize,
        ),
        session_packet(message).skip(4) == message,
        smb2_magic().is_prefix_of(message) ==> smb2_start_spec(session_packet(message)) == Some(4int),
{
    let p = session_packet(message);
    assert(p.take(4) =~= seq![p[0], p[1], p[2], p[3]]);
    assert(p.skip(4) =~= message);
    if smb2_magic().is_prefix_of(message) {
        assert(message.take(4) =~= smb2_magic());
        assert(p.subrange(4, 8) =~= message.take(4));
        assert(p.take(4)[0] == 0);
    }
}

/// Where the SMB2 message starts: at once, or behind a session header.
pub open spec fn smb2_start_spec(b: Seq<u8>) -> Option<int> {
    if b.len() >= 4 && b.take(4) == smb2_magic() {
        Some(0)
    } else if b.len() >= 8 && b.subrange(4, 8) == smb2_magic() {
        Some(4)
    } else {
        None
    }
}

/// Reports whether the SMB2 mark stands at a position.
fn has_magic(b: &[u8], at: usize) -> (r: bool)
    requires
        at + 4 <= b@.len(),
    ensures
        r == (b@.subrange(at as int, at + 4) == smb2_magic()),
{
    let total: usize = b.len();
    let mark: [u8; 4] = [0xfe, 0x53, 0x4d, 0x42];
    proof {
        assert(at + 4 <= total);
        assert(mark@ =~= smb2_magic());
    }
    same_bytes(vstd::slice::slice_subrange(b, at, at + 4), &mark)
}

/// Finds where the SMB2 message starts.
fn smb2_start(b: &[u8]) -> (r: Option<usize>)
    ensures
        match r {
            Some(at) => smb2_start_spec(b@) == Some(at as int) && at <= 4,
            None => smb2_start_spec(b@) is None,
        },
{
    proof {
        assert(b@.len() >= 4 ==> b@.take(4) =~= b@.subrange(0, 4));
    }
    if b.len() >= 4 && has_magic(b, 0) {
        Some(0)
    } else if b.len() >= 8 && has_magic(b, 4) {
        Some(4)
    } else {
        None
    }
}

/// The name of a dialect.
pub open spec fn dialect_spec(dialect: u16) -> Seq<char> {
    if dialect == 0x0202 {
        "SMB 2.0.2"@
    } else if dialect == 0x0210 {
        "SMB 2.1"@
    } else if dialect == 0x0300 {
        "SMB 3.0"@
    } else if dialect == 0x0302 {
        "SMB 3.0.2"@
    } else if dialect == 0x0311 {
        "SMB 3.1.1"@
    } else {
        "SMB unknown"@
    }
}

/// Names a dialect.
fn dialect_name(dialect: u16) -> (r: &'static str)
    ensures
        r@ == dialect_spec(dialect),
{
    match dialect {
        0x0202 => "SMB 2.0.2",
        0x0210 => "SMB 2.1",
        0x0300 => "SMB 3.0",
        0x0302 => "SMB 3.0.2",
        0x0311 => "SMB 3.1.1",
        _ => "SMB unknown",
    }
}

/// The byte is a printable ASCII character.
pub open spec fn printable(b: u8) -> bool {
    0x20 <= b <= 0x7e
}

/// A run of printable bytes as a token, where it is long enough.
pub open spec fn token_of(run: Seq<u8>) -> Seq<Seq<char>> {
    if run.len() >= 5 {
        seq![text::trim_spec(text::utf8_lossy_spec(run))]
    } else {
        seq![]
    }
}

/// The tokens of a byte string, after a run of printable bytes.
pub open spec fn tokens_from(b: Seq<u8>, run: Seq<u8>) -> Seq<Seq<char>>
    decreases b.len(),
{
    if b.len() == 0 {
        token_of(run)
    } else if printable(b[0]) {
        tokens_from(b.drop_first(), run.push(b[0]))
    } else {
        token_of(run) + tokens_from(b.drop_first(), seq![])
    }
}

/// The runs of five or more printable bytes, as trimmed text.
pub open spec fn ascii_tokens_spec(b: Seq<u8>) -> Seq<Seq<char>> {
    tokens_from(b, seq![])
}

/// Appends the token of a run.
fn push_token(out: &mut Vec<String>, run: &Vec<u8>)
    ensures
        final(out).deep_view() == old(out).deep_view() + token_of(run@),
{
    if run.len() >= 5 {
        let shown = text(trim(chars(utf8_lossy(run.as_slice()).as_str()).as_slice()));
        out.push(shown);
        proof {
            assert(out.deep_view() =~= old(out).deep_view() + token_of(run@));
        }
    } else {
        proof {
            assert(out.deep_view() =~= old(out).deep_view() + token_of(run@));
        }
    }
}

/// Lists the runs of printable bytes.
fn ascii_tokens(b: &[u8]) -> (r: Vec<String>)
    ensures
        r.deep_view() == ascii_tokens_spec(b@),
{
    let mut out: Vec<String> = Vec::new();
    let mut run: Vec<u8> = Vec::new();
    let mut i: usize = 0;
    proof {
        assert(b@.skip(0) =~= b@);
        assert(run@ =~= seq![]);
        assert(out.deep_view() + tokens_from(b@, run@) =~= tokens_from(b@, run@));
    }
    while i < b.len()
        invariant
            i <= b@.len(),
            out.deep_view() + tokens_from(b@.skip(i as int), run@) == ascii_tokens_spec(b@),
        decreases b@.len() - i,
    {
        let ghost rest = b@.skip(i as int);
        let ghost before = out.deep_view();
        proof {
            assert(rest.drop_first() =~= b@.skip(i + 1));
        }
        let byte: u8 = b[i];
        if 0x20 <= byte && byte <= 0x7e {
            run.push(byte);
        } else {
            let ghost token = token_of(run@);
            push_token(&mut out, &run);
            run = Vec::new();
            proof {
                assert(run@ =~= seq![]);
                let tail = tokens_from(rest.drop_first(), seq![]);
                assert(before + (token + tail) =~= out.deep_view() + tail);
            }
        }
        i = i + 1;
    }
    push_token(&mut out, &run);
    out
}

/// The first token whose lower-case form contains one of two texts.
pub open spec fn token_with(
    tokens: Seq<Seq<char>>,
    a: Seq<char>,
    b: Seq<char>,
) -> Option<Seq<char>>
    decreases tokens.len(),
{
    if tokens.len() == 0 {
        None
    } else if text::contains_spec(text::lower_spec(tokens[0]), a) || text::contains_spec(text::lower_spec(tokens[0]), b) {
        Some(tokens[0])
    } else {
        token_with(tokens.drop_first(), a, b)
    }
}

/// Finds the first token whose lower-case form contains one of two texts.
fn find_token(tokens: &Vec<String>, a: &str, b: &str) -> (r: Option<String>)
    ensures
        r.deep_view() == token_with(tokens.deep_view(), a@, b@),
{
    let ghost views = tokens.deep_view();
    let mut i: usize = 0;
    proof {
        assert(views.skip(0) =~= views);
    }
    while i < tokens.len()
        invariant
            i <= tokens@.len(),
            views == tokens.deep_view(),
            token_with(views, a@, b@) == token_with(views.skip(i as int), a@, b@),
        decreases tokens@.len() - i,
    {
        proof {
            assert(views.skip(i as int)[0] == tokens@[i as int]@);
            assert(views.skip(i as int).drop_first() =~= views.skip(i + 1));
        }
        let low = lower(chars(tokens[i].as_str()).as_slice());
        if contains(low.as_slice(), a) || contains(low.as_slice(), b) {
            return Some(tokens[i].clone());
        }
        i = i + 1;
    }
    None
}

/// The security blob of a negotiate response, whose place the body at `body`
/// gives; empty where it does not lie within the packet.
pub open spec fn security_blob_spec(b: Seq<u8>, start: int, body: int) -> Seq<u8> {
    let from = start + bytes::le16_spec(b, body + 56);
    let n = bytes::le16_spec(b, body + 58) as int;
    if from + n <= b.len() {
        b.subrange(from, from + n)
    } else {
        seq![]
    }
}

/// What a negotiate response says of its server.
pub open spec fn negotiate_response_spec(b: Seq<u8>) -> Option<SmbInfoView> {
    match smb2_start_spec(b) {
        Some(start) => {
            let body = start + 64;
            if start + 128 > b.len() || b[start + 12] != 0 || b[start + 13] != 0 || bytes::le32_spec(
                b,
                start + 8,
            ) != 0 || bytes::le16_spec(b, body) != 65 {
                None
            } else {
                let tokens = ascii_tokens_spec(security_blob_spec(b, start, body));
                Some(
                    SmbInfoView {
                        dialect: Some(dialect_spec(bytes::le16_spec(b, body + 4))),
                        signing_required: Some(bytes::le16_spec(b, body + 2) / 2 % 2 == 1),
                        server_guid: Some(text::hex_spec(b.subrange(body + 8, body + 24))),
                        native_os: token_with(tokens, "windows"@, "windows"@),
                        native_lanman: token_with(tokens, "samba"@, "lan manager"@),
                        netbios_computer_name: None,
                        dns_computer_name: None,
                    },
                )
            }
        },
        None => None,
    }
}

/// Writes bytes as hexadecimal digits.
fn hex_guid(b: &[u8]) -> (r: String)
    ensures
        r@ == text::hex_spec(b@),
{
    let mut out: String = String::new();
    let mut i: usize = 0;
    while i < b.len()
        invariant
            i <= b@.len(),
            out@ == text::hex_spec(b@.take(i as int)),
        decreases b@.len() - i,
    {
        proof {
            assert(b@.take(i + 1).drop_last() =~= b@.take(i as int));
        }
        push_hex_byte(&mut out, b[i]);
        i = i + 1;
    }
    proof {
        assert(b@.take(i as int) =~= b@);
    }
    out
}

/// Reads a negotiate response.
pub fn parse_smb2_negotiate_response(b: &[u8]) -> (r: Option<SmbInfo>)
    ensures
        r.deep_view() == negotiate_response_spec(b@),
{
    let total: usize = b.len();
    let start: usize = match smb2_start(b) {
        Some(start) => start,
        None => {
            return None;
        },
    };
    if total < start + 128 {
        return None;
    }
    let body: usize = start + 64;
    if b[start + 12] != 0 || b[start + 13] != 0 || le32(b, start + 8) != 0 || le16(b, body) != 65 {
        return None;
    }
    let security_mode: u16 = le16(b, body + 2);
    let dialect: u16 = le16(b, body + 4);
    let from: usize = start + le16(b, body + 56) as usize;
    let n: usize = le16(b, body + 58) as usize;
    let tokens = if from <= total && n <= total - from {
        ascii_tokens(vstd::slice::slice_subrange(b, from, from + n))
    } else {
        let none: Vec<u8> = Vec::new();
        proof {
            assert(none@ =~= seq![]);
        }
        ascii_tokens(none.as_slice())
    };
    Some(
        SmbInfo {
            dialect: Some(owned(dialect_name(dialect))),
            signing_required: Some(security_mode / 2 % 2 == 1),
            server_guid: Some(hex_guid(vstd::slice::slice_subrange(b, body + 8, body + 24))),
            native_os: find_token(&tokens, "windows", "windows"),
            native_lanman: find_token(&tokens, "samba", "lan manager"),
            netbios_computer_name: None,
            dns_computer_name: None,
        },
    )
}

/// The position of the first occurrence of a byte string.
pub open spec fn bytes_index(b: Seq<u8>, p: Seq<u8>) -> Option<int>
    decreases b.len(),
{
    if b.len() < p.len() {
        None
    } else if b.take(p.len() as int) == p {
        Some(0)
    } else if b.len() == 0 {
        None
    } else {
        match bytes_index(b.drop_first(), p) {
            Some(k) => Some(k + 1),
            None => None,
        }
    }
}

/// Finds the first occurrence of a byte string.
fn find_bytes(b: &[u8], p: &[u8]) -> (r: Option<usize>)
    ensures
        match r {
            Some(k) => bytes_index(b@, p@) == Some(k as int) && k + p@.len() <= b@.len(),
            None => bytes_index(b@, p@) is None,
        },
{
    let total: usize = b.len();
    let n: usize = p.len();
    if n > total {
        return None;
    }
    let last: usize = total - n;
    let mut i: usize = 0;
    proof {
        assert(b@.skip(0) =~= b@);
    }
    loop
        invariant
            n == p@.len(),
            n + last == total,
            total == b@.len(),
            i <= last,
            bytes_index(b@, p@) == (match bytes_index(b@.skip(i as int), p@) {
                Some(k) => Some(k + i),
                None => None,
            }),
        decreases last - i,
    {
        let ghost rest = b@.skip(i as int);
        proof {
            assert(rest.take(n as int) =~= b@.subrange(i as int, i + n));
        }
        if same_bytes(vstd::slice::slice_subrange(b, i, i + n), p) {
            return Some(i);
        }
        proof {
            if rest.len() > 0 {
                assert(rest.drop_first() =~= b@.skip(i + 1));
                assert(i == last ==> bytes_index(rest.drop_first(), p@) is None);
            }
        }
        if i == last {
            return None;
        }
        i = i + 1;
    }
}

/// The bytes to which a security buffer at `at` points: it gives their number and,
/// four bytes on, their position.
pub open spec fn security_buffer_spec(b: Seq<u8>, at: int) -> Option<Seq<u8>> {
    if at + 8 > b.len() {
        None
    } else {
        let n = bytes::le16_spec(b, at) as int;
        let from = bytes::le32_spec(b, at + 4) as int;
        if from + n > b.len() {
            None
        } else {
            Some(b.subrange(from, from + n))
        }
    }
}

/// The content of an optional byte string.
pub open spec fn bytes_opt(r: Option<&[u8]>) -> Option<Seq<u8>> {
    match r {
        Some(b) => Some(b@),
        None => None,
    }
}

/// Follows a security buffer.
fn read_ntlm_security_buffer<'a>(b: &'a [u8], at: usize) -> (r: Option<&'a [u8]>)
    ensures
        bytes_opt(r) == security_buffer_spec(b@, at as int),
{
    let total: usize = b.len();
    if total < 8 || at > total - 8 {
        return None;
    }
    let n: usize = le16(b, at) as usize;
    let from: usize = le32(b, at + 4) as usize;
    if from > total || n > total - from {
        return None;
    }
    Some(vstd::slice::slice_subrange(b, from, from + n))
}

/// The UTF-16 units that pairs of bytes spell, in little-endian order.
pub open spec fn utf16_units(b: Seq<u8>) -> Seq<u16> {
    Seq::new(b.len() / 2, |i: int| bytes::le16_spec(b, 2 * i))
}

/// The text of a UTF-16 field; nothing when it is malformed or holds no text.
pub open spec fn utf16_text(b: Seq<u8>) -> Option<Seq<char>> {
    if b.len() % 2 != 0 {
        None
    } else {
        match text::utf16_spec(utf16_units(b)) {
            Some(s) => {
                let t = text::trim_spec(text::trim_end_char_spec(s, '\0'));
                if t.len() == 0 {
                    None
                } else {
                    Some(t)
                }
            },
            None => None,
        }
    }
}

/// Reads the text of a UTF-16 field.
fn decode_utf16le(b: &[u8]) -> (r: Option<String>)
    ensures
        r.deep_view() == utf16_text(b@),
{
    let total: usize = b.len();
    if total % 2 != 0 {
        return None;
    }
    let mut units: Vec<u16> = Vec::new();
    let mut i: usize = 0;
    while i < total / 2
        invariant
            i <= total / 2,
            total == b@.len(),
            total % 2 == 0,
            units@ =~= utf16_units(b@).take(i as int),
        decreases total / 2 - i,
    {
        units.push(le16(b, 2 * i));
        i = i + 1;
    }
    proof {
        assert(units@ =~= utf16_units(b@));
    }
    match from_utf16(units.as_slice()) {
        Some(s) => {
            let c = chars(s.as_str());
            let t = trim(trim_end_char(c.as_slice(), '\0'));
            if t.len() == 0 {
                None
            } else {
                Some(text(t))
            }
        },
        None => None,
    }
}

/// The text of a name field in the encoding that the challenge announces; nothing
/// when it holds no text.
pub open spec fn ntlm_text(b: Seq<u8>, unicode: bool) -> Option<Seq<char>> {
    if unicode {
        utf16_text(b)
    } else {
        let t = text::trim_spec(text::utf8_lossy_spec(b));
        if t.len() == 0 {
            None
        } else {
            Some(t)
        }
    }
}

/// Reads the text of a name field.
fn decode_ntlm_string(b: &[u8], unicode: bool) -> (r: Option<String>)
    ensures
        r.deep_view() == ntlm_text(b@, unicode),
{
    if unicode {
        return decode_utf16le(b);
    }
    let c = chars(utf8_lossy(b).as_str());
    let t = trim(c.as_slice());
    if t.len() == 0 {
        None
    } else {
        Some(text(t))
    }
}

impl NtlmHostInfoView {
    /// The names with one more.
    pub open spec fn with_pair(self, id: u16, value: Seq<char>) -> NtlmHostInfoView {
        if id == 1 {
            NtlmHostInfoView { netbios_computer_name: Some(value), ..self }
        } else if id == 2 {
            NtlmHostInfoView { netbios_domain_name: Some(value), ..self }
        } else if id == 3 {
            NtlmHostInfoView { dns_computer_name: Some(value), ..self }
        } else if id == 4 {
            NtlmHostInfoView { dns_domain_name: Some(value), ..self }
        } else {
            self
        }
    }

    /// The names with those of a list of pairs, up to the end pair; nothing when a
    /// pair runs past the list or is no text.
    pub open spec fn with_pairs(self, b: Seq<u8>) -> Option<NtlmHostInfoView>
        decreases b.len(),
    {
        if b.len() < 4 || bytes::le16_spec(b, 0) == 0 {
            Some(self)
        } else {
            let n = bytes::le16_spec(b, 2) as int;
            if 4 + n > b.len() {
                None
            } else {
                match utf16_text(b.subrange(4, 4 + n)) {
                    Some(value) => self.with_pair(bytes::le16_spec(b, 0), value).with_pairs(
                        b.skip(4 + n),
                    ),
                    None => None,
                }
            }
        }
    }
}

/// The mark at the start of every NTLM message.
pub open spec fn ntlm_mark() -> Seq<u8> {
    seq![0x4e, 0x54, 0x4c, 0x4d, 0x53, 0x53, 0x50, 0x00]
}

/// The names in an NTLM challenge message.
pub open spec fn challenge_spec(m: Seq<u8>) -> Option<NtlmHostInfoView> {
    if m.len() < 12 || bytes::le32_spec(m, 8) != 2 {
        None
    } else {
        let unicode = m.len() >= 24 && bytes::le32_spec(m, 20) % 2 == 1;
        let target_name = match security_buffer_spec(m, 12) {
            Some(b) => ntlm_text(b, unicode),
            None => None,
        };
        let pairs = match security_buffer_spec(m, 40) {
            Some(b) => b,
            None => seq![],
        };
        NtlmHostInfoView {
            target_name,
            netbios_computer_name: None,
            netbios_domain_name: None,
            dns_computer_name: None,
            dns_domain_name: None,
        }.with_pairs(pairs)
    }
}

/// The names in the NTLM challenge within a security blob.
pub open spec fn challenge_blob_spec(b: Seq<u8>) -> Option<NtlmHostInfoView> {
    match bytes_index(b, ntlm_mark()) {
        Some(k) => challenge_spec(b.skip(k)),
        None => None,
    }
}

/// Adds the names of a list of pairs.
fn read_pairs(start: NtlmHostInfo, b: &[u8]) -> (r: Option<NtlmHostInfo>)
    ensures
        r.deep_view() == start@.with_pairs(b@),
{
    let ghost first = start@;
    let total: usize = b.len();
    let mut info = start;
    let mut at: usize = 0;
    proof {
        assert(b@.skip(0) =~= b@);
    }
    while total - at >= 4
        invariant
            at <= total,
            total == b@.len(),
            first == start@,
            first.with_pairs(b@) == info@.with_pairs(b@.skip(at as int)),
        decreases total - at,
    {
        let ghost rest = b@.skip(at as int);
        let id: u16 = le16(b, at);
        let n: usize = le16(b, at + 2) as usize;
        proof {
            assert(bytes::le16_spec(rest, 0) == id);
            assert(bytes::le16_spec(rest, 2) == n);
        }
        if id == 0 {
            return Some(info);
        }
        if total - at - 4 < n {
            return None;
        }
        let value = vstd::slice::slice_subrange(b, at + 4, at + 4 + n);
        proof {
            assert(value@ =~= rest.subrange(4, 4 + n));
            assert(rest.skip(4 + n) =~= b@.skip(at + 4 + n));
        }
        match decode_utf16le(value) {
            Some(name) => {
                if id == 1 {
                    info.netbios_computer_name = Some(name);
                } else if id == 2 {
                    info.netbios_domain_name = Some(name);
                } else if id == 3 {
                    info.dns_computer_name = Some(name);
                } else if id == 4 {
                    info.dns_domain_name = Some(name);
                }
            },
            None => {
                return None;
            },
        }
        at = at + 4 + n;
    }
    Some(info)
}

/// Reads the names in the NTLM challenge within a security blob.
///
/// The target information of a challenge often holds the NetBIOS and DNS names of
/// the host before authentication completes.
pub fn parse_ntlm_challenge_host_info(b: &[u8]) -> (r: Option<NtlmHostInfo>)
    ensures
        r.deep_view() == challenge_blob_spec(b@),
{
    let mark: [u8; 8] = [0x4e, 0x54, 0x4c, 0x4d, 0x53, 0x53, 0x50, 0x00];
    proof {
        assert(mark@ =~= ntlm_mark());
    }
    let k: usize = find_bytes(b, &mark)?;
    let m = vstd::slice::slice_subrange(b, k, b.len());
    proof {
        assert(m@ =~= b@.skip(k as int));
    }
    if m.len() < 12 || le32(m, 8) != 2 {
        return None;
    }
    let unicode = m.len() >= 24 && le32(m, 20) % 2 == 1;
    let target_name = match read_ntlm_security_buffer(m, 12) {
        Some(name) => decode_ntlm_string(name, unicode),
        None => None,
    };
    let start = NtlmHostInfo {
        target_name,
        netbios_computer_name: None,
        netbios_domain_name: None,
        dns_computer_name: None,
        dns_domain_name: None,
    };
    match read_ntlm_security_buffer(m, 40) {
        Some(pairs) => read_pairs(start, pairs),
        None => {
            proof {
                assert(start@.with_pairs(seq![]) == Some(start@));
            }
            Some(start)
        },
    }
}

/// The names in a session-setup response: one to our request, whose status is
/// success or the demand for more processing.
pub open spec fn session_setup_spec(b: Seq<u8>) -> Option<NtlmHostInfoView> {
    match smb2_start_spec(b) {
        Some(start) => {
            let body = start + 64;
            if start + 72 > b.len() || bytes::le16_spec(b, start + 12) != 1 || (bytes::le32_spec(b, start + 8)
                != 0 && bytes::le32_spec(b, start + 8) != 0xc000_0016) || bytes::le16_spec(b, body) != 9 {
                None
            } else {
                let from = start + bytes::le16_spec(b, body + 4);
                let n = bytes::le16_spec(b, body + 6) as int;
                if from + n > b.len() {
                    None
                } else {
                    challenge_blob_spec(b.subrange(from, from + n))
                }
            }
        },
        None => None,
    }
}

/// Reads the names in a session-setup response.
pub fn parse_smb2_session_setup_ntlm_host_info(b: &[u8]) -> (r: Option<NtlmHostInfo>)
    ensures
        r.deep_view() == session_setup_spec(b@),
{
    let total: usize = b.len();
    let start: usize = smb2_start(b)?;
    if total < start + 72 {
        return None;
    }
    let body: usize = start + 64;
    let status: u32 = le32(b, start + 8);
    if le16(b, start + 12) != 1 || (status != 0 && status != 0xc000_0016) || le16(b, body) != 9 {
        return None;
    }
    let from: usize = start + le16(b, body + 4) as usize;
    let n: usize = le16(b, body + 6) as usize;
    if from > total || n > total - from {
        return None;
    }
    parse_ntlm_challenge_host_info(vstd::slice::slice_subrange(b, from, from + n))
}

/// The server information with the names of its challenge.
pub open spec fn with_host_names(info: SmbInfoView, names: NtlmHostInfoView) -> SmbInfoView {
    SmbInfoView {
        netbios_computer_name: names.netbios_computer_name,
        dns_computer_name: names.dns_computer_name,
        ..info
    }
}

/// Adds the names of the challenge to the server information.
pub fn add_host_names(info: &mut SmbInfo, names: NtlmHostInfo)
    ensures
        final(info)@ == with_host_names(old(info)@, names@),
{
    info.netbios_computer_name = names.netbios_computer_name;
    info.dns_computer_name = names.dns_computer_name;
}

} // verus!
