//! What open ports and their services say of a device.

use crate::addr::IpAddr;
use crate::model::Confidence;
use crate::probes::deep::{
    FaviconFingerprintView, HttpHeaderView, PortRead, ProbeKind, TlsCertificateView,
    WebProbeView,
};
use crate::probes::deep;
use crate::text;
use vstd::prelude::*;

verus! {

/// A service is expected at a port.
pub open spec fn expected(port: u16, service: Seq<char>) -> bool {
    ||| port == 21 && service == "ftp"@
    ||| port == 22 && service == "ssh"@
    ||| port == 23 && service == "telnet"@
    ||| port == 80 && service == "http"@
    ||| port == 139 && service == "netbios-ssn"@
    ||| port == 443 && service == "https"@
    ||| port == 445 && service == "smb"@
    ||| port == 631 && service == "ipp"@
    ||| port == 5000 && service == "upnp-http"@
    ||| port == 8000 && service == "http-alt"@
    ||| port == 8008 && service == "http-alt"@
    ||| port == 8080 && service == "http-proxy"@
    ||| port == 9100 && service == "printer"@
}

/// Exactly the expected ports are probed, each for its service.
pub proof fn law_expected_ports_are_probed(port: u16, service: Seq<char>)
    ensures
        deep::probed_ports_spec().contains((port, service)) <==> expected(port, service),
{
    let all = deep::probed_ports_spec();
    assert(all.len() == 13);
    if all.contains((port, service)) {
        let i = choose|i: int| 0 <= i < all.len() && all[i] == (port, service);
        assert(all[i].0 == port && all[i].1 == service);
    }
    assert(all[0] == (21u16, "ftp"@) && all[1] == (22u16, "ssh"@) && all[2] == (23u16, "telnet"@));
    assert(all[3] == (80u16, "http"@) && all[4] == (139u16, "netbios-ssn"@));
    assert(all[5] == (443u16, "https"@) && all[6] == (445u16, "smb"@) && all[7] == (631u16, "ipp"@));
    assert(all[8] == (5000u16, "upnp-http"@) && all[9] == (8000u16, "http-alt"@));
    assert(all[10] == (8008u16, "http-alt"@) && all[11] == (8080u16, "http-proxy"@));
    assert(all[12] == (9100u16, "printer"@));
}

/// The names of services differ.
proof fn lemma_services()
    ensures
        "ftp"@.len() == 3 && "ftp"@[0] == 'f',
        "ssh"@.len() == 3 && "ssh"@[0] == 's' && "ssh"@[1] == 's',
        "telnet"@.len() == 6,
        "http"@.len() == 4,
        "netbios-ssn"@.len() == 11,
        "https"@.len() == 5,
        "smb"@.len() == 3 && "smb"@[0] == 's' && "smb"@[1] == 'm',
        "ipp"@.len() == 3 && "ipp"@[0] == 'i',
        "upnp-http"@.len() == 9,
        "http-alt"@.len() == 8,
        "http-proxy"@.len() == 10,
        "printer"@.len() == 7,
{
    reveal_strlit("ftp");
    reveal_strlit("ssh");
    reveal_strlit("telnet");
    reveal_strlit("http");
    reveal_strlit("netbios-ssn");
    reveal_strlit("https");
    reveal_strlit("smb");
    reveal_strlit("ipp");
    reveal_strlit("upnp-http");
    reveal_strlit("http-alt");
    reveal_strlit("http-proxy");
    reveal_strlit("printer");
}

/// Web ports are asked for their start page, the secure one for its certificate too;
/// file transfer, remote shell, and terminal ports are listened to; and of any other port
/// it is enough that it is open.
pub proof fn law_ports_are_questioned_by_their_service(port: u16, service: Seq<char>)
    requires
        expected(port, service),
    ensures
        ({
            let kind = deep::probe_kind_spec(service);
            &&& kind is Http <==> port == 80 || port == 5000 || port == 8000 || port == 8008 || port
                == 8080
            &&& kind is Https <==> port == 443
            &&& kind is Greeting <==> port == 21 || port == 22 || port == 23
            &&& kind is OpenOnly <==> port == 139 || port == 445 || port == 631 || port == 9100
        }),
{
    lemma_services();
}

/// A greeting is read up to 512 bytes, and the head of a start page up to 1024 where the
/// web probe found nothing; otherwise nothing is read.
pub proof fn law_what_is_read(kind: ProbeKind, web_found: bool)
    ensures
        ({
            let read = deep::next_read_spec(kind, web_found);
            &&& read == PortRead::Greeting(512) <==> kind is Greeting
            &&& read == PortRead::Head(1024) <==> kind is Http && !web_found
            &&& read is Nothing <==> !(kind is Greeting) && !(kind is Http && !web_found)
        }),
{
}

/// A printer port hints at a printer, a file sharing port at file sharing, and a web port
/// at a web service; no other port hints at anything.
pub proof fn law_ports_hint_at_types(port: u16)
    ensures
        ({
            let hint = deep::type_hint_spec(port);
            &&& hint == Some(("printer"@, 65 as Confidence)) <==> port == 631 || port == 9100
            &&& hint == Some(("smb-capable"@, 45 as Confidence)) <==> port == 139 || port == 445
            &&& hint == Some(("web-service"@, 35 as Confidence)) <==> port == 80 || port == 443
                || port == 8000 || port == 8008 || port == 8080
            &&& hint is None <==> !(port == 631 || port == 9100 || port == 139 || port == 445 || port
                == 80 || port == 443 || port == 8000 || port == 8008 || port == 8080)
        }),
{
}

/// A banner hints at a system: that of a small SSH server at an embedded Linux, that of
/// OpenSSH at a Unix, and one that names Microsoft or Windows at Windows, whatever the
/// case of its letters.
pub proof fn law_banners_hint_at_systems(service: Seq<char>, banner: Seq<char>)
    ensures
        ({
            let hint = deep::os_hint_spec(service, banner);
            let low = text::lower_spec(banner);
            let dropbear = service == "ssh"@ && text::contains_spec(low, "dropbear"@);
            let openssh = service == "ssh"@ && text::contains_spec(low, "openssh"@);
            let windows = text::contains_spec(low, "windows"@) || text::contains_spec(
                low,
                "microsoft"@,
            );
            &&& dropbear ==> hint == Some(("Linux/embedded"@, 60 as Confidence))
            &&& openssh && !dropbear ==> hint == Some(("Unix-like"@, 55 as Confidence))
            &&& windows && !openssh && !dropbear ==> hint == Some(("Windows"@, 60 as Confidence))
            &&& hint is None <==> !dropbear && !openssh && !windows
        }),
{
}

/// The header says something of a device.
pub open spec fn telling(name: Seq<char>) -> bool {
    ||| name == "server"@
    ||| name == "www-authenticate"@
    ||| name == "via"@
    ||| name == "location"@
    ||| name == "content-type"@
    ||| name.len() >= 2 && name[0] == 'x' && name[1] == '-'
}

/// A kept header is one that a response has.
pub open spec fn kept_of(h: HttpHeaderView, raw: (Seq<char>, Option<Seq<char>>)) -> bool {
    &&& h.name == text::lower_spec(raw.0)
    &&& telling(h.name)
    &&& raw.1 is Some
    &&& h.value.len() <= 180
    &&& h.value == raw.1->0.take(h.value.len() as int)
    &&& raw.1->0.len() <= 180 ==> h.value == raw.1->0
    &&& raw.1->0.len() > 180 ==> h.value.len() == 180
}

/// The headers that say something of a device are kept, with their names in lower case
/// and the start of their values, and no others.
pub proof fn law_telling_headers_are_kept(
    headers: Seq<(Seq<char>, Option<Seq<char>>)>,
    h: HttpHeaderView,
)
    ensures
        deep::interesting_headers_spec(headers).contains(h) <==> exists|i: int|
            0 <= i < headers.len() && kept_of(h, #[trigger] headers[i]),
    decreases headers.len(),
{
    if headers.len() > 0 {
        let front = headers.drop_last();
        let before = deep::interesting_headers_spec(front);
        let after = deep::interesting_headers_spec(headers);
        let raw = headers.last();
        law_telling_headers_are_kept(front, h);
        lemma_kept(h, raw);
        assert(headers[headers.len() - 1] == raw);
        if before.contains(h) {
            let k = choose|k: int| 0 <= k < before.len() && before[k] == h;
            assert(after[k] == h);
            let i = choose|i: int| 0 <= i < front.len() && kept_of(h, #[trigger] front[i]);
            assert(headers[i] == front[i]);
        }
        if exists|i: int| 0 <= i < headers.len() && kept_of(h, #[trigger] headers[i]) {
            let i = choose|i: int| 0 <= i < headers.len() && kept_of(h, #[trigger] headers[i]);
            if i < front.len() {
                assert(front[i] == headers[i]);
            } else {
                assert(after[before.len() as int] == h);
            }
        }
        if after.contains(h) && !before.contains(h) {
            let k = choose|k: int| 0 <= k < after.len() && after[k] == h;
            if k < before.len() {
                assert(before[k] == h);
            }
        }
    }
}

/// What is kept of one header.
proof fn lemma_kept(h: HttpHeaderView, raw: (Seq<char>, Option<Seq<char>>))
    ensures
        kept_of(h, raw) <==> raw.1 is Some && deep::interesting_spec(text::lower_spec(raw.0)) && h
            == (HttpHeaderView {
            name: text::lower_spec(raw.0),
            value: text::first_spec(raw.1->0, 180),
        }),
{
    let name = text::lower_spec(raw.0);
    reveal_strlit("x-");
    assert("x-"@ =~= seq!['x', '-']);
    assert(text::starts_with_spec(name, "x-"@) <==> name.len() >= 2 && name[0] == 'x' && name[1]
        == '-') by {
        if name.len() >= 2 {
            assert(name.take(2) =~= seq![name[0], name[1]]);
            assert(name.take(2)[0] == name[0] && name.take(2)[1] == name[1]);
        }
    }
    if raw.1 is Some {
        let v = raw.1->0;
        assert(v.take(v.len() as int) =~= v);
        if kept_of(h, raw) {
            assert(h.value =~= text::first_spec(v, 180));
        }
    }
}

/// What a certificate says stands in its place: the subject, the issuer, and the bounds of
/// its validity; its digest is that of its bytes.
pub proof fn law_certificate_fields_stand_in_their_places(
    der: Seq<u8>,
    subject: Seq<char>,
    issuer: Seq<char>,
    not_before: Seq<char>,
    not_after: Seq<char>,
)
    ensures
        ({
            let c = deep::certificate_from(der, Some((subject, issuer, not_before, not_after)));
            &&& c.subject == Some(subject)
            &&& c.issuer == Some(issuer)
            &&& c.not_before == Some(not_before)
            &&& c.not_after == Some(not_after)
            &&& c.sha256 == text::hex_spec(deep::sha256_spec(der))
        }),
        ({
            let c = deep::certificate_from(der, None);
            &&& c.subject is None && c.issuer is None && c.not_before is None && c.not_after is None
            &&& c.sha256 == text::hex_spec(deep::sha256_spec(der))
        }),
{
}

/// What a port was found to say stands in its place: of a web port the banner, the
/// headers, and the icon; of the secure one the certificate too; of a port that greets,
/// its greeting; and of any other port that it is open.
pub proof fn law_port_findings_stand_in_their_places(
    port: u16,
    service: Seq<char>,
    web: Option<WebProbeView>,
    answer: Option<Seq<u8>>,
    tls: Option<TlsCertificateView>,
)
    requires
        expected(port, service),
    ensures
        ({
            let p = deep::port_probe_spec(port, service, web, answer, tls);
            let web_port = port == 80 || port == 443 || port == 5000 || port == 8000 || port == 8008
                || port == 8080;
            let greeting = port == 21 || port == 22 || port == 23;
            &&& p.port == port && p.service == service
            &&& port == 443 ==> p.tls == tls
            &&& port != 443 ==> p.tls is None
            &&& web_port && web is Some ==> p.banner == web->0.banner && p.http_headers
                == web->0.headers && p.favicon == web->0.favicon
            &&& !web_port || web is None ==> p.http_headers.len() == 0 && p.favicon is None
            &&& (greeting || (web_port && port != 443 && web is None)) && answer is Some ==> p.banner
                == deep::banner_spec(answer->0)
            &&& !greeting && !web_port ==> p.banner is None
        }),
{
    lemma_services();
}

/// The lines of a banner that hold text.
proof fn lemma_first_lines(all: Seq<Seq<char>>, count: nat)
    ensures
        deep::first_lines(all, count).len() <= count,
        forall|i: int|
            0 <= i < deep::first_lines(all, count).len() ==> (#[trigger] deep::first_lines(
                all,
                count,
            )[i]).len() > 0,
    decreases all.len(),
{
    if all.len() > 0 && count > 0 {
        let tail = all.drop_first();
        if text::trim_spec(all[0]).len() == 0 {
            lemma_first_lines(tail, count);
        } else {
            lemma_first_lines(tail, (count - 1) as nat);
        }
    }
}

/// A banner is at most 240 characters long, and is never empty.
pub proof fn law_banner_is_short(b: Seq<u8>)
    ensures
        deep::banner_spec(b) is Some ==> 0 < deep::banner_spec(b)->0.len() <= 240,
        deep::first_lines(text::lines_spec(text::utf8_lossy_spec(b)), 4).len() <= 4,
{
    lemma_first_lines(text::lines_spec(text::utf8_lossy_spec(b)), 4);
}

/// A banner of a response that names its server gives the server.
pub proof fn law_banner_names_its_server(server: Seq<char>, rest: Seq<Seq<char>>)
    requires
        server.len() > 0,
        text::trim_spec(server) == server,
        !text::is_space(server.last()),
    ensures
        deep::server_in_line("Server:"@ + server) == Some(server),
        deep::server_in_line("server:"@ + server) == Some(server),
        deep::server_in_lines(seq!["server:"@ + server] + rest) == Some(server),
{
    reveal_strlit("Server:");
    reveal_strlit("server:");
    let none = Seq::<char>::empty();
    let a = "Server:"@ + server;
    let b = "server:"@ + server;
    assert(text::laws::blank(none));
    assert(a[0] == 'S' && a.last() == server.last());
    assert(b[0] == 's' && b.last() == server.last());
    text::laws::law_trimming_takes_the_white_space_around(none, a, none);
    assert(none + a + none =~= a);
    text::laws::law_trimming_takes_the_white_space_around(none, b, none);
    assert(none + b + none =~= b);
    text::laws::law_texts_contain_their_parts(none, "Server:"@, server);
    text::laws::law_texts_contain_their_parts(none, "server:"@, server);
    assert(!text::starts_with_spec(b, "Server:"@)) by {
        if text::starts_with_spec(b, "Server:"@) {
            assert(b.take(7)[0] == b[0]);
        }
    }
    let all = seq![b] + rest;
    assert(all[0] == b);
}

/// The address of a web server is the scheme, the address of the host, and the port.
pub proof fn law_web_address(ip: IpAddr, port: u16)
    ensures
        deep::base_url_spec(ip, port, true) == "https://"@ + ip.text_spec() + (seq![':']
            + text::decimal_spec(port as nat)),
        deep::base_url_spec(ip, port, false) == "http://"@ + ip.text_spec() + (seq![':']
            + text::decimal_spec(port as nat)),
{
    reveal_strlit(":");
    assert(":"@ =~= seq![':']);
}

/// An icon is known by the digest of its bytes, unless it is empty or too large.
pub proof fn law_icons_are_known_by_their_digest(b: Seq<u8>, url: Seq<char>)
    ensures
        ({
            let f = deep::favicon_spec(b, url);
            &&& f is Some <==> 0 < b.len() <= 262144
            &&& f is Some ==> f->0 == (FaviconFingerprintView {
                url,
                sha256: text::hex_spec(deep::sha256_spec(b)),
                bytes: b.len() as usize,
            })
        }),
{
}

} // verus!
