//! Shallow TCP/HTTP/TLS enrichment.
//!
//! Probes only run for hosts already found by discovery. They collect banners,
//! selected HTTP headers, favicon hashes, and TLS certificate metadata as identity
//! evidence without attempting vulnerability checks or enumeration.

use crate::addr::IpAddr;
use crate::model::Confidence;
use crate::text::{
    chars, concat, concat3, contains, decimal, first, hex_encode, is_text, join, lines, lower,
    owned, replace_char, split_char, starts_with, str_eq, strip_prefix, text, trim, utf8_lossy,
};
use crate::text;
use vstd::prelude::*;

verus! {

/// One HTTP response header.
#[derive(Debug, PartialEq, Eq)]
pub struct HttpHeader {
    pub name: String,
    pub value: String,
}

/// The mathematical content of a [`HttpHeader`].
#[verifier::ext_equal]
pub struct HttpHeaderView {
    pub name: Seq<char>,
    pub value: Seq<char>,
}

impl View for HttpHeader {
    type V = HttpHeaderView;

    open spec fn view(&self) -> HttpHeaderView {
        HttpHeaderView {
            name: self.name@,
            value: self.value@,
        }
    }
}

impl DeepView for HttpHeader {
    type V = HttpHeaderView;

    open spec fn deep_view(&self) -> HttpHeaderView {
        self@
    }
}

impl Clone for HttpHeader {
    fn clone(&self) -> (r: Self)
        ensures
            r@ == self@,
    {
        let r = HttpHeader {
            name: self.name.clone(),
            value: self.value.clone(),
        };
        r
    }
}

/// The digest of the icon of a web interface.
#[derive(Debug, PartialEq, Eq)]
pub struct FaviconFingerprint {
    pub url: String,
    pub sha256: String,
    pub bytes: usize,
}

/// The mathematical content of a [`FaviconFingerprint`].
#[verifier::ext_equal]
pub struct FaviconFingerprintView {
    pub url: Seq<char>,
    pub sha256: Seq<char>,
    pub bytes: usize,
}

impl View for FaviconFingerprint {
    type V = FaviconFingerprintView;

    open spec fn view(&self) -> FaviconFingerprintView {
        FaviconFingerprintView {
            url: self.url@,
            sha256: self.sha256@,
            bytes: self.bytes,
        }
    }
}

impl DeepView for FaviconFingerprint {
    type V = FaviconFingerprintView;

    open spec fn deep_view(&self) -> FaviconFingerprintView {
        self@
    }
}

impl Clone for FaviconFingerprint {
    fn clone(&self) -> (r: Self)
        ensures
            r@ == self@,
    {
        let r = FaviconFingerprint {
            url: self.url.clone(),
            sha256: self.sha256.clone(),
            bytes: self.bytes,
        };
        r
    }
}

/// What a TLS server certificate says of its holder.
#[derive(Debug, PartialEq, Eq)]
pub struct TlsCertificate {
    pub sha256: String,
    pub subject: Option<String>,
    pub issuer: Option<String>,
    pub not_before: Option<String>,
    pub not_after: Option<String>,
}

/// The mathematical content of a [`TlsCertificate`].
#[verifier::ext_equal]
pub struct TlsCertificateView {
    pub sha256: Seq<char>,
    pub subject: Option<Seq<char>>,
    pub issuer: Option<Seq<char>>,
    pub not_before: Option<Seq<char>>,
    pub not_after: Option<Seq<char>>,
}

impl View for TlsCertificate {
    type V = TlsCertificateView;

    open spec fn view(&self) -> TlsCertificateView {
        TlsCertificateView {
            sha256: self.sha256@,
            subject: self.subject.deep_view(),
            issuer: self.issuer.deep_view(),
            not_before: self.not_before.deep_view(),
            not_after: self.not_after.deep_view(),
        }
    }
}

impl DeepView for TlsCertificate {
    type V = TlsCertificateView;

    open spec fn deep_view(&self) -> TlsCertificateView {
        self@
    }
}

impl Clone for TlsCertificate {
    fn clone(&self) -> (r: Self)
        ensures
            r@ == self@,
    {
        let r = TlsCertificate {
            sha256: self.sha256.clone(),
            subject: self.subject.clone(),
            issuer: self.issuer.clone(),
            not_before: self.not_before.clone(),
            not_after: self.not_after.clone(),
        };
        proof {
            assert(r.subject.deep_view() =~= self.subject.deep_view());
            assert(r.issuer.deep_view() =~= self.issuer.deep_view());
            assert(r.not_before.deep_view() =~= self.not_before.deep_view());
            assert(r.not_after.deep_view() =~= self.not_after.deep_view());
        }
        r
    }
}

/// What one open port gave away.
#[derive(Debug, PartialEq, Eq)]
pub struct PortProbe {
    pub port: u16,
    pub service: String,
    pub banner: Option<String>,
    pub http_headers: Vec<HttpHeader>,
    pub favicon: Option<FaviconFingerprint>,
    pub tls: Option<TlsCertificate>,
}

/// The mathematical content of a [`PortProbe`].
#[verifier::ext_equal]
pub struct PortProbeView {
    pub port: u16,
    pub service: Seq<char>,
    pub banner: Option<Seq<char>>,
    pub http_headers: Seq<HttpHeaderView>,
    pub favicon: Option<FaviconFingerprintView>,
    pub tls: Option<TlsCertificateView>,
}

impl View for PortProbe {
    type V = PortProbeView;

    open spec fn view(&self) -> PortProbeView {
        PortProbeView {
            port: self.port,
            service: self.service@,
            banner: self.banner.deep_view(),
            http_headers: self.http_headers.deep_view(),
            favicon: self.favicon.deep_view(),
            tls: self.tls.deep_view(),
        }
    }
}

impl DeepView for PortProbe {
    type V = PortProbeView;

    open spec fn deep_view(&self) -> PortProbeView {
        self@
    }
}

impl Clone for PortProbe {
    fn clone(&self) -> (r: Self)
        ensures
            r@ == self@,
    {
        let r = PortProbe {
            port: self.port,
            service: self.service.clone(),
            banner: self.banner.clone(),
            http_headers: self.http_headers.clone(),
            favicon: self.favicon.clone(),
            tls: self.tls.clone(),
        };
        proof {
            assert(r.banner.deep_view() =~= self.banner.deep_view());
            assert(r.http_headers.deep_view() =~= self.http_headers.deep_view());
            assert(r.favicon.deep_view() =~= self.favicon.deep_view());
            assert(r.tls.deep_view() =~= self.tls.deep_view());
        }
        r
    }
}

/// Which sources of a port probe become evidence.
#[derive(Clone, Copy, Debug, PartialEq, Eq, Structural)]
pub struct ProbeOptions {
    pub deep: bool,
    pub http: bool,
    pub tls: bool,
}

impl ProbeOptions {
    /// Reports whether any source is wanted.
    pub fn any(self) -> (r: bool)
        ensures
            r == (self.deep || self.http || self.tls),
    {
        self.deep || self.http || self.tls
    }
}

/// How an open port is questioned.
#[derive(Clone, Copy, Debug, PartialEq, Eq, Structural)]
pub enum ProbeKind {
    /// Over HTTP.
    Http,
    /// Over HTTPS, where the certificate counts too.
    Https,
    /// By reading what the service says first.
    Greeting,
    /// Not at all: that the port is open is the signal.
    OpenOnly,
}

/// How the port of a service is questioned.
pub open spec fn probe_kind_spec(service: Seq<char>) -> ProbeKind {
    if service == "http"@ || service == "http-alt"@ || service == "http-proxy"@ || service
        == "upnp-http"@ {
        ProbeKind::Http
    } else if service == "https"@ {
        ProbeKind::Https
    } else if service == "ssh"@ || service == "ftp"@ || service == "telnet"@ {
        ProbeKind::Greeting
    } else {
        ProbeKind::OpenOnly
    }
}

/// Tells how the port of a service is questioned.
pub fn probe_kind(service: &str) -> (r: ProbeKind)
    ensures
        r == probe_kind_spec(service@),
{
    if str_eq(service, "http") || str_eq(service, "http-alt") || str_eq(service, "http-proxy")
        || str_eq(service, "upnp-http") {
        ProbeKind::Http
    } else if str_eq(service, "https") {
        ProbeKind::Https
    } else if str_eq(service, "ssh") || str_eq(service, "ftp") || str_eq(service, "telnet") {
        ProbeKind::Greeting
    } else {
        ProbeKind::OpenOnly
    }
}

/// What is read from the connection to an open port.
#[derive(Clone, Copy, Debug, PartialEq, Eq, Structural)]
pub enum PortRead {
    /// The answer to a request for the head of the start page, up to a number of bytes.
    Head(usize),
    /// What the service says first, up to a number of bytes.
    Greeting(usize),
    /// Nothing.
    Nothing,
}

/// What is read next: the head of the start page where a web probe found nothing over
/// HTTP, and the greeting of a service that speaks first.
pub open spec fn next_read_spec(kind: ProbeKind, web_found: bool) -> PortRead {
    match kind {
        ProbeKind::Http => if web_found {
            PortRead::Nothing
        } else {
            PortRead::Head(1024)
        },
        ProbeKind::Https => PortRead::Nothing,
        ProbeKind::Greeting => PortRead::Greeting(512),
        ProbeKind::OpenOnly => PortRead::Nothing,
    }
}

/// Tells what is read next, by how the port is questioned and whether the web probe
/// found something.
pub fn next_read(kind: ProbeKind, web_found: bool) -> (r: PortRead)
    ensures
        r == next_read_spec(kind, web_found),
{
    match kind {
        ProbeKind::Http => if web_found {
            PortRead::Nothing
        } else {
            PortRead::Head(1024)
        },
        ProbeKind::Https => PortRead::Nothing,
        ProbeKind::Greeting => PortRead::Greeting(512),
        ProbeKind::OpenOnly => PortRead::Nothing,
    }
}

/// The ports that are probed, each with the service expected there.
pub open spec fn probed_ports_spec() -> Seq<(u16, Seq<char>)> {
    seq![
        (21, "ftp"@),
        (22, "ssh"@),
        (23, "telnet"@),
        (80, "http"@),
        (139, "netbios-ssn"@),
        (443, "https"@),
        (445, "smb"@),
        (631, "ipp"@),
        (5000, "upnp-http"@),
        (8000, "http-alt"@),
        (8008, "http-alt"@),
        (8080, "http-proxy"@),
        (9100, "printer"@),
    ]
}

/// Lists the ports that are probed.
///
/// Probing stays deliberately narrow: only ports already useful for device
/// identity are touched, and only for hosts that discovery found.
pub fn probed_ports() -> (r: Vec<(u16, &'static str)>)
    ensures
        r@.map_values(|p: (u16, &'static str)| (p.0, p.1@)) == probed_ports_spec(),
{
    let mut out: Vec<(u16, &'static str)> = Vec::new();
    out.push((21, "ftp"));
    out.push((22, "ssh"));
    out.push((23, "telnet"));
    out.push((80, "http"));
    out.push((139, "netbios-ssn"));
    out.push((443, "https"));
    out.push((445, "smb"));
    out.push((631, "ipp"));
    out.push((5000, "upnp-http"));
    out.push((8000, "http-alt"));
    out.push((8008, "http-alt"));
    out.push((8080, "http-proxy"));
    out.push((9100, "printer"));
    proof {
        assert(out@.map_values(|p: (u16, &'static str)| (p.0, p.1@)) =~= probed_ports_spec());
    }
    out
}

/// The first `count` lines that hold more than white space, trimmed.
pub open spec fn first_lines(all: Seq<Seq<char>>, count: nat) -> Seq<Seq<char>>
    decreases all.len(),
{
    if all.len() == 0 || count == 0 {
        seq![]
    } else if text::trim_spec(all[0]).len() == 0 {
        first_lines(all.drop_first(), count)
    } else {
        seq![text::trim_spec(all[0])] + first_lines(all.drop_first(), (count - 1) as nat)
    }
}

/// The compact form of what a service said: its first four lines that hold text,
/// joined, and at most 240 characters of that.
pub open spec fn banner_spec(b: Seq<u8>) -> Option<Seq<char>> {
    let joined = text::join_spec(first_lines(text::lines_spec(text::utf8_lossy_spec(b)), 4), " | "@);
    if joined.len() == 0 {
        None
    } else {
        Some(text::first_spec(joined, 240))
    }
}

/// Compacts what a service said, so that it can stand in evidence and logs.
pub fn sanitize_banner(b: &[u8]) -> (r: Option<String>)
    ensures
        r.deep_view() == banner_spec(b@),
{
    let c = chars(utf8_lossy(b).as_str());
    let all = lines(c.as_slice());
    let ghost views = text::slice_views(all@);
    let mut kept: Vec<String> = Vec::new();
    let mut i: usize = 0;
    proof {
        assert(views.skip(0) =~= views);
        assert(kept.deep_view() + first_lines(views, 4) =~= first_lines(views, 4));
    }
    while i < all.len() && kept.len() < 4
        invariant
            i <= all@.len(),
            kept@.len() <= 4,
            views == text::slice_views(all@),
            kept.deep_view() + first_lines(views.skip(i as int), (4 - kept@.len()) as nat)
                == first_lines(views, 4),
        decreases all@.len() - i,
    {
        let ghost rest = views.skip(i as int);
        let ghost before = kept.deep_view();
        proof {
            assert(rest[0] == all@[i as int]@);
            assert(rest.drop_first() =~= views.skip(i + 1));
        }
        let line = trim(all[i]);
        if line.len() > 0 {
            kept.push(text(line));
            proof {
                assert(kept.deep_view() =~= before.push(line@));
                let tail = first_lines(rest.drop_first(), (4 - kept@.len()) as nat);
                assert(before + (seq![line@] + tail) =~= kept.deep_view() + tail);
            }
        }
        i = i + 1;
    }
    proof {
        assert(kept.deep_view() + Seq::<Seq<char>>::empty() =~= kept.deep_view());
    }
    let joined = chars(join(&kept, " | ").as_str());
    if joined.len() == 0 {
        None
    } else {
        Some(text(first(joined.as_slice(), 240)))
    }
}

/// The largest favicon, in bytes, that is read.
pub const MAX_FAVICON_BYTES: usize = 262144;

/// The SHA-256 digest of a byte string.
pub uninterp spec fn sha256_spec(b: Seq<u8>) -> Seq<u8>;

/// `sha2::Sha256::digest` computes the SHA-256 digest of a byte string, which has
/// 32 bytes.
#[verifier::external_body]
fn sha256(b: &[u8]) -> (r: Vec<u8>)
    ensures
        r@ == sha256_spec(b@),
        r@.len() == 32,
{
    <sha2::Sha256 as sha2::Digest>::digest(b).to_vec()
}

/// Reports whether a body of the announced length is worth reading. Favicons are
/// fingerprints, not payloads: a body known to be oversized is refused unread.
pub fn favicon_worth_reading(content_length: Option<u64>) -> (r: bool)
    ensures
        r == (content_length matches Some(n) ==> n <= MAX_FAVICON_BYTES),
{
    match content_length {
        Some(n) => n <= MAX_FAVICON_BYTES as u64,
        None => true,
    }
}

/// The fingerprint of a favicon; nothing for an empty or oversized one.
pub open spec fn favicon_spec(b: Seq<u8>, url: Seq<char>) -> Option<FaviconFingerprintView> {
    if b.len() == 0 || b.len() > MAX_FAVICON_BYTES {
        None
    } else {
        Some(
            FaviconFingerprintView { url, sha256: text::hex_spec(sha256_spec(b)), bytes: b.len() as usize },
        )
    }
}

/// Fingerprints a favicon.
pub fn favicon_fingerprint(b: &[u8], url: String) -> (r: Option<FaviconFingerprint>)
    ensures
        r.deep_view() == favicon_spec(b@, url@),
{
    if b.len() == 0 || b.len() > MAX_FAVICON_BYTES {
        None
    } else {
        Some(
            FaviconFingerprint {
                url,
                sha256: hex_encode(sha256(b).as_slice()),
                bytes: b.len(),
            },
        )
    }
}

/// The subject, issuer, and bounds of validity of a certificate in DER form.
pub uninterp spec fn x509_spec(der: Seq<u8>) -> Option<(Seq<char>, Seq<char>, Seq<char>, Seq<char>)>;

/// The content of certificate fields.
pub open spec fn x509_view(r: Option<(String, String, String, String)>) -> Option<
    (Seq<char>, Seq<char>, Seq<char>, Seq<char>),
> {
    match r {
        Some((a, b, c, d)) => Some((a@, b@, c@, d@)),
        None => None,
    }
}

/// `x509_parser::parse_x509_certificate` reads a certificate in DER form; its
/// subject, issuer, and bounds of validity come out in the text form that the
/// crate gives them.
#[verifier::external_body]
fn x509_fields(der: &[u8]) -> (r: Option<(String, String, String, String)>)
    ensures
        x509_view(r) == x509_spec(der@),
{
    let (_, cert) = x509_parser::parse_x509_certificate(der).ok()?;
    Some(
        (
            cert.subject().to_string(),
            cert.issuer().to_string(),
            cert.validity().not_before.to_string(),
            cert.validity().not_after.to_string(),
        ),
    )
}

/// What is kept of a certificate: its digest, and its fields where they read.
pub open spec fn certificate_from(
    der: Seq<u8>,
    fields: Option<(Seq<char>, Seq<char>, Seq<char>, Seq<char>)>,
) -> TlsCertificateView {
    TlsCertificateView {
        sha256: text::hex_spec(sha256_spec(der)),
        subject: match fields {
            Some(f) => Some(f.0),
            None => None,
        },
        issuer: match fields {
            Some(f) => Some(f.1),
            None => None,
        },
        not_before: match fields {
            Some(f) => Some(f.2),
            None => None,
        },
        not_after: match fields {
            Some(f) => Some(f.3),
            None => None,
        },
    }
}

/// Keeps what a certificate with the given fields says of its holder.
pub fn certificate_with_fields(
    der: &[u8],
    fields: Option<(String, String, String, String)>,
) -> (r: TlsCertificate)
    ensures
        r@ == certificate_from(der@, x509_view(fields)),
{
    let sha256 = hex_encode(sha256(der).as_slice());
    match fields {
        Some((subject, issuer, not_before, not_after)) => TlsCertificate {
            sha256,
            subject: Some(subject),
            issuer: Some(issuer),
            not_before: Some(not_before),
            not_after: Some(not_after),
        },
        None => TlsCertificate {
            sha256,
            subject: None,
            issuer: None,
            not_before: None,
            not_after: None,
        },
    }
}

/// Keeps what a certificate in DER form says of its holder.
pub fn tls_certificate(der: &[u8]) -> (r: TlsCertificate)
    ensures
        r@ == certificate_from(der@, x509_spec(der@)),
{
    certificate_with_fields(der, x509_fields(der))
}

/// The header, by its lower-case name, carries identity.
pub open spec fn interesting_spec(name: Seq<char>) -> bool {
    name == "server"@ || name == "www-authenticate"@ || name == "via"@ || name == "location"@ || name
        == "content-type"@ || text::starts_with_spec(name, "x-"@)
}

/// The kept form of the headers that carry identity. A header whose value is no
/// text is left out; of a value, the first 180 characters are kept.
pub open spec fn interesting_headers_spec(
    headers: Seq<(Seq<char>, Option<Seq<char>>)>,
) -> Seq<HttpHeaderView>
    decreases headers.len(),
{
    if headers.len() == 0 {
        seq![]
    } else {
        let rest = interesting_headers_spec(headers.drop_last());
        let name = text::lower_spec(headers.last().0);
        match headers.last().1 {
            Some(value) if interesting_spec(name) => rest.push(
                HttpHeaderView { name, value: text::first_spec(value, 180) },
            ),
            _ => rest,
        }
    }
}

/// The content of a list of raw headers.
pub open spec fn raw_headers_view(headers: Seq<(String, Option<String>)>) -> Seq<
    (Seq<char>, Option<Seq<char>>),
> {
    headers.map_values(|h: (String, Option<String>)| (h.0@, h.1.deep_view()))
}

/// Keeps the headers that carry identity.
///
/// Product and framework headers carry the most identity value. All `x-` headers
/// count because appliances frequently expose model data there.
pub fn interesting_headers(headers: &Vec<(String, Option<String>)>) -> (r: Vec<HttpHeader>)
    ensures
        r.deep_view() == interesting_headers_spec(raw_headers_view(headers@)),
{
    let ghost views = raw_headers_view(headers@);
    let mut out: Vec<HttpHeader> = Vec::new();
    proof {
        assert(out.deep_view() =~= seq![]);
    }
    let mut i: usize = 0;
    while i < headers.len()
        invariant
            i <= headers@.len(),
            views == raw_headers_view(headers@),
            out.deep_view() == interesting_headers_spec(views.take(i as int)),
        decreases headers@.len() - i,
    {
        let ghost before = out.deep_view();
        proof {
            assert(views.take(i + 1).drop_last() =~= views.take(i as int));
            assert(views.take(i + 1).last() == (headers@[i as int].0@, headers@[i as int].1.deep_view()));
        }
        let name = lower(chars(headers[i].0.as_str()).as_slice());
        let n = name.as_slice();
        let interesting = is_text(n, "server") || is_text(n, "www-authenticate") || is_text(n, "via")
            || is_text(n, "location") || is_text(n, "content-type") || starts_with(n, "x-");
        match &headers[i].1 {
            Some(value) => {
                if interesting {
                    let header = HttpHeader {
                        name: text(n),
                        value: text(first(chars(value.as_str()).as_slice(), 180)),
                    };
                    let ghost view = header@;
                    out.push(header);
                    proof {
                        assert(out.deep_view() =~= before.push(view));
                    }
                }
            },
            None => {},
        }
        i = i + 1;
    }
    proof {
        assert(views.take(i as int) =~= views);
    }
    out
}

/// A header as one line.
pub open spec fn header_line(h: HttpHeaderView) -> Seq<char> {
    h.name + ": "@ + h.value
}

/// The banner of a response: its status and its first four headers.
pub open spec fn response_banner_spec(status: u16, headers: Seq<HttpHeaderView>) -> Seq<char> {
    let shown = if headers.len() > 4 {
        headers.take(4)
    } else {
        headers
    };
    text::join_spec(
        seq!["HTTP "@ + text::decimal_spec(status as nat)] + shown.map_values(
            |h: HttpHeaderView| header_line(h),
        ),
        " | "@,
    )
}

/// Makes a banner out of a response.
pub fn http_banner_from_response(status: u16, headers: &Vec<HttpHeader>) -> (r: Option<String>)
    ensures
        r.deep_view() == Some(response_banner_spec(status, headers.deep_view())),
{
    let mut parts: Vec<String> = Vec::new();
    parts.push(concat("HTTP ", decimal(status as u64).as_str()));
    let ghost head = parts.deep_view();
    let ghost views = headers.deep_view();
    let count: usize = if headers.len() > 4 {
        4
    } else {
        headers.len()
    };
    let ghost shown = views.take(count as int).map_values(|h: HttpHeaderView| header_line(h));
    proof {
        assert(head =~= seq!["HTTP "@ + text::decimal_spec(status as nat)]);
    }
    let mut i: usize = 0;
    while i < count
        invariant
            i <= count <= headers@.len(),
            views == headers.deep_view(),
            shown == views.take(count as int).map_values(|h: HttpHeaderView| header_line(h)),
            parts.deep_view() =~= head + shown.take(i as int),
        decreases count - i,
    {
        let ghost before = parts.deep_view();
        let h = &headers[i];
        parts.push(concat3(h.name.as_str(), ": ", h.value.as_str()));
        proof {
            assert(shown[i as int] == header_line(h@));
            assert(parts.deep_view() =~= before.push(header_line(h@)));
        }
        i = i + 1;
    }
    proof {
        assert(headers@.len() <= 4 ==> views.take(count as int) =~= views);
        assert(shown.take(count as int) =~= shown);
    }
    Some(join(&parts, " | "))
}

/// The server named in a line.
pub open spec fn server_in_line(line: Seq<char>) -> Option<Seq<char>> {
    let line = text::trim_spec(line);
    let value = match text::strip_prefix_spec(line, "Server:"@) {
        Some(v) => Some(v),
        None => text::strip_prefix_spec(line, "server:"@),
    };
    match value {
        Some(v) if text::trim_spec(v).len() > 0 => Some(text::trim_spec(v)),
        _ => None,
    }
}

/// The server named in the first line that names one.
pub open spec fn server_in_lines(all: Seq<Seq<char>>) -> Option<Seq<char>>
    decreases all.len(),
{
    if all.len() == 0 {
        None
    } else {
        match server_in_line(all[0]) {
            Some(v) => Some(v),
            None => server_in_lines(all.drop_first()),
        }
    }
}

/// The server named in a banner.
pub fn http_server_from_banner(banner: &str) -> (r: Option<String>)
    ensures
        r.deep_view() == server_in_lines(text::split_char_spec(banner@, '|')),
{
    let c = chars(banner);
    let all = split_char(c.as_slice(), '|');
    let ghost views = text::slice_views(all@);
    let mut i: usize = 0;
    proof {
        assert(views.skip(0) =~= views);
    }
    while i < all.len()
        invariant
            i <= all@.len(),
            views == text::slice_views(all@),
            views == text::split_char_spec(banner@, '|'),
            server_in_lines(views) == server_in_lines(views.skip(i as int)),
        decreases all@.len() - i,
    {
        proof {
            assert(views.skip(i as int)[0] == all@[i as int]@);
            assert(views.skip(i as int).drop_first() =~= views.skip(i + 1));
        }
        let line = trim(all[i]);
        let value = match strip_prefix(line, "Server:") {
            Some(v) => Some(v),
            None => strip_prefix(line, "server:"),
        };
        match value {
            Some(v) => {
                let v = trim(v);
                if v.len() > 0 {
                    return Some(text(v));
                }
            },
            None => {},
        }
        i = i + 1;
    }
    None
}

/// The evidence key of a header.
pub open spec fn header_key_spec(name: Seq<char>) -> Seq<char> {
    "http_header_"@ + text::replace_char_spec(name, '-', '_')
}

/// The evidence key under which a header is recorded.
pub fn header_evidence_key(name: &str) -> (r: String)
    ensures
        r@ == header_key_spec(name@),
{
    concat("http_header_", replace_char(chars(name).as_slice(), '-', '_').as_str())
}

/// The operating system at which a banner hints.
pub open spec fn os_hint_spec(service: Seq<char>, banner: Seq<char>) -> Option<
    (Seq<char>, Confidence),
> {
    let low = text::lower_spec(banner);
    if service == "ssh"@ && text::contains_spec(low, "dropbear"@) {
        Some(("Linux/embedded"@, 60))
    } else if service == "ssh"@ && text::contains_spec(low, "openssh"@) {
        Some(("Unix-like"@, 55))
    } else if text::contains_spec(low, "microsoft"@) || text::contains_spec(low, "windows"@) {
        Some(("Windows"@, 60))
    } else {
        None
    }
}

/// The content of a hint.
pub open spec fn hint_view(r: Option<(&'static str, Confidence)>) -> Option<
    (Seq<char>, Confidence),
> {
    match r {
        Some((value, confidence)) => Some((value@, confidence)),
        None => None,
    }
}

/// Guesses the operating system from a banner.
pub fn os_hint_from_banner(service: &str, banner: &str) -> (r: Option<(&'static str, Confidence)>)
    ensures
        hint_view(r) == os_hint_spec(service@, banner@),
{
    let low = lower(chars(banner).as_slice());
    let low = low.as_slice();
    if str_eq(service, "ssh") && contains(low, "dropbear") {
        Some(("Linux/embedded", 60))
    } else if str_eq(service, "ssh") && contains(low, "openssh") {
        Some(("Unix-like", 55))
    } else if contains(low, "microsoft") || contains(low, "windows") {
        Some(("Windows", 60))
    } else {
        None
    }
}

/// The device type at which an open port hints.
pub open spec fn type_hint_spec(port: u16) -> Option<(Seq<char>, Confidence)> {
    if port == 631 || port == 9100 {
        Some(("printer"@, 65))
    } else if port == 445 || port == 139 {
        Some(("smb-capable"@, 45))
    } else if port == 80 || port == 443 || port == 8080 || port == 8000 || port == 8008 {
        Some(("web-service"@, 35))
    } else {
        None
    }
}

/// Guesses the device type from an open port.
pub fn device_type_hint_from_port(port: u16) -> (r: Option<(&'static str, Confidence)>)
    ensures
        hint_view(r) == type_hint_spec(port),
{
    match port {
        631 | 9100 => Some(("printer", 65)),
        445 | 139 => Some(("smb-capable", 45)),
        80 | 443 | 8080 | 8000 | 8008 => Some(("web-service", 35)),
        _ => None,
    }
}

/// The request for the head of a host's start page.
pub open spec fn head_request_spec(ip: IpAddr) -> Seq<char> {
    "HEAD / HTTP/1.1\r\nHost: "@ + ip.text_spec() + "\r\nConnection: close\r\n\r\n"@
}

/// Writes the request for the head of a host's start page.
pub fn head_request(ip: IpAddr) -> (r: String)
    ensures
        r@ == head_request_spec(ip),
{
    concat3(
        "HEAD / HTTP/1.1\r\nHost: ",
        ip.text().as_str(),
        "\r\nConnection: close\r\n\r\n",
    )
}

/// The address of a web server.
pub open spec fn base_url_spec(ip: IpAddr, port: u16, https: bool) -> Seq<char> {
    (if https {
        "https://"@
    } else {
        "http://"@
    }) + ip.text_spec() + (":"@ + text::decimal_spec(port as nat))
}

/// Writes the address of a web server.
pub fn base_url(ip: IpAddr, port: u16, https: bool) -> (r: String)
    ensures
        r@ == base_url_spec(ip, port, https),
{
    let scheme = if https {
        "https://"
    } else {
        "http://"
    };
    concat3(
        scheme,
        ip.text().as_str(),
        concat(":", decimal(port as u64).as_str()).as_str(),
    )
}

/// Writes the address of a web server's icon.
pub fn favicon_url(base: &str) -> (r: String)
    ensures
        r@ == base@ + "/favicon.ico"@,
{
    concat(base, "/favicon.ico")
}

/// The most headers that are kept of a response.
pub const MAX_HTTP_HEADERS: usize = 16;

/// What a web server says of itself.
#[derive(Debug, PartialEq, Eq)]
pub struct WebProbe {
    pub banner: Option<String>,
    pub headers: Vec<HttpHeader>,
    pub favicon: Option<FaviconFingerprint>,
}

/// The mathematical content of a [`WebProbe`].
#[verifier::ext_equal]
pub struct WebProbeView {
    pub banner: Option<Seq<char>>,
    pub headers: Seq<HttpHeaderView>,
    pub favicon: Option<FaviconFingerprintView>,
}

impl View for WebProbe {
    type V = WebProbeView;

    open spec fn view(&self) -> WebProbeView {
        WebProbeView {
            banner: self.banner.deep_view(),
            headers: self.headers.deep_view(),
            favicon: self.favicon.deep_view(),
        }
    }
}

impl DeepView for WebProbe {
    type V = WebProbeView;

    open spec fn deep_view(&self) -> WebProbeView {
        self@
    }
}

/// What a response says of a web server: a banner, and the first of the headers that
/// carry identity.
pub open spec fn web_probe_spec(
    status: u16,
    headers: Seq<(Seq<char>, Option<Seq<char>>)>,
    favicon: Option<FaviconFingerprintView>,
) -> WebProbeView {
    let interesting = interesting_headers_spec(headers);
    WebProbeView {
        banner: Some(response_banner_spec(status, interesting)),
        headers: if interesting.len() > MAX_HTTP_HEADERS {
            interesting.take(MAX_HTTP_HEADERS as int)
        } else {
            interesting
        },
        favicon,
    }
}

/// Collects what a response says of a web server.
pub fn web_probe_found(
    status: u16,
    headers: &Vec<(String, Option<String>)>,
    favicon: Option<FaviconFingerprint>,
) -> (r: WebProbe)
    ensures
        r@ == web_probe_spec(status, raw_headers_view(headers@), favicon.deep_view()),
{
    let mut kept = interesting_headers(headers);
    let banner = http_banner_from_response(status, &kept);
    let ghost all = kept.deep_view();
    while kept.len() > MAX_HTTP_HEADERS
        invariant
            kept@.len() <= all.len(),
            all.len() >= MAX_HTTP_HEADERS ==> kept@.len() >= MAX_HTTP_HEADERS,
            all.len() < MAX_HTTP_HEADERS ==> kept@.len() == all.len(),
            kept.deep_view() == all.take(kept@.len() as int),
        decreases kept@.len(),
    {
        let ghost before = kept.deep_view();
        kept.pop();
        proof {
            assert(kept.deep_view() =~= before.drop_last());
            assert(before.drop_last() =~= all.take(kept@.len() as int));
        }
    }
    proof {
        assert(all.take(all.len() as int) =~= all);
    }
    WebProbe { banner, headers: kept, favicon }
}

/// What is recorded of an open port. That it is open is enough to record the service;
/// what was read enriches the record where the kind of service makes use of it.
pub open spec fn port_probe_spec(
    port: u16,
    service: Seq<char>,
    web: Option<WebProbeView>,
    answer: Option<Seq<u8>>,
    tls: Option<TlsCertificateView>,
) -> PortProbeView {
    let bare = PortProbeView {
        port,
        service,
        banner: None,
        http_headers: seq![],
        favicon: None,
        tls: None,
    };
    let read = match answer {
        Some(b) => banner_spec(b),
        None => None,
    };
    match probe_kind_spec(service) {
        ProbeKind::Http => match web {
            Some(web) => PortProbeView {
                banner: web.banner,
                http_headers: web.headers,
                favicon: web.favicon,
                ..bare
            },
            None => PortProbeView { banner: read, ..bare },
        },
        ProbeKind::Https => match web {
            Some(web) => PortProbeView {
                banner: web.banner,
                http_headers: web.headers,
                favicon: web.favicon,
                tls,
                ..bare
            },
            None => PortProbeView { tls, ..bare },
        },
        ProbeKind::Greeting => PortProbeView { banner: read, ..bare },
        ProbeKind::OpenOnly => bare,
    }
}

/// Only what is read next counts: where nothing is, the record of the port does not
/// depend on any answer.
pub proof fn law_only_reads_count(
    port: u16,
    service: Seq<char>,
    web: Option<WebProbeView>,
    answer: Option<Seq<u8>>,
    tls: Option<TlsCertificateView>,
)
    requires
        next_read_spec(probe_kind_spec(service), web is Some) == PortRead::Nothing,
    ensures
        port_probe_spec(port, service, web, answer, tls) == port_probe_spec(
            port,
            service,
            web,
            None,
            tls,
        ),
{
}

/// Records an open port. `answer` is what the port sent: after a request for the head
/// of the start page where no web probe succeeded, or on its own.
pub fn port_probe(
    port: u16,
    service: &str,
    web: Option<WebProbe>,
    answer: Option<Vec<u8>>,
    tls: Option<TlsCertificate>,
) -> (r: PortProbe)
    ensures
        r@ == port_probe_spec(
            port,
            service@,
            web.deep_view(),
            match answer {
                Some(b) => Some(b@),
                None => None,
            },
            tls.deep_view(),
        ),
{
    let mut probe = PortProbe {
        port,
        service: owned(service),
        banner: None,
        http_headers: Vec::new(),
        favicon: None,
        tls: None,
    };
    proof {
        assert(probe.http_headers.deep_view() =~= seq![]);
    }
    let kind = probe_kind(service);
    match kind {
        ProbeKind::Http | ProbeKind::Https => {
            match web {
                Some(web) => {
                    probe.banner = web.banner;
                    probe.http_headers = web.headers;
                    probe.favicon = web.favicon;
                },
                None => {
                    if matches!(kind, ProbeKind::Http) {
                        if let Some(b) = answer {
                            probe.banner = sanitize_banner(b.as_slice());
                        }
                    }
                },
            }
            if matches!(kind, ProbeKind::Https) {
                probe.tls = tls;
            }
        },
        ProbeKind::Greeting => {
            if let Some(b) = answer {
                probe.banner = sanitize_banner(b.as_slice());
            }
        },
        ProbeKind::OpenOnly => {},
    }
    probe
}

} // verus!
