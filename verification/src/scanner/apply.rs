//! Evidence-to-device merge helpers for scanner phases.
//!
//! Protocol collectors return small, protocol-shaped records. This module is the
//! boundary where those records become the common [`Device`] model: raw evidence is
//! preserved, best guesses are updated by confidence, and services are attached
//! without letting one protocol erase another.

use crate::addr::{address_texts, IpAddr};
use crate::addr;
use crate::dhcp::{DhcpLease, DhcpLeaseView};
use crate::discovery::cdp::{CdpInfo, CdpInfoView};
use crate::discovery::lldp::{LldpInfo, LldpInfoView};
use crate::enrich::mdns::{MdnsInfo, MdnsInfoView, MdnsService, MdnsServiceView};
use crate::enrich::oui::lookup_vendor;
use crate::enrich::oui;
use crate::model::{
    Confidence, Device, DeviceView, Evidence, EvidenceView, NameEvidence, NameEvidenceView,
    ServiceEvidence, ServiceEvidenceView,
};
use crate::model;
use crate::probes::deep::{
    device_type_hint_from_port, header_evidence_key, http_server_from_banner, os_hint_from_banner,
    HttpHeader, HttpHeaderView, PortProbe, PortProbeView, ProbeOptions,
};
use crate::probes::deep;
use crate::probes::smb::{SmbInfo, SmbInfoView};
use crate::probes::snmp::{SnmpInfo, SnmpInfoView};
use crate::probes::upnp::{friendly_device_type, UpnpInfo, UpnpInfoView};
use crate::probes::upnp;
use crate::same::holds;
use crate::sort::{insert, SortOrder};
use crate::sort;
use crate::text::{chars, concat, contains, decimal, less, lower, or_empty, owned, str_eq};
use crate::text;
use crate::text_map::{TextMap, TextMapView};
use vstd::prelude::*;

verus! {

/// The content of an optional vendor table.
pub open spec fn opt_map(db: Option<&TextMap>) -> Option<TextMapView> {
    match db {
        Some(m) => Some(m@),
        None => None,
    }
}

/// The text of a truth value.
pub open spec fn truth_spec(v: bool) -> Seq<char> {
    if v {
        "true"@
    } else {
        "false"@
    }
}

/// Writes a truth value.
fn truth(v: bool) -> (r: &'static str)
    ensures
        r@ == truth_spec(v),
{
    if v {
        "true"
    } else {
        "false"
    }
}

/// Reports whether a text holds a word, up to the case of ASCII letters.
fn mentions(s: &str, word: &str) -> (r: bool)
    ensures
        r == text::contains_spec(text::lower_spec(s@), word@),
{
    contains(lower(chars(s).as_slice()).as_slice(), word)
}

/// The device after a source reported one fact, where it did.
pub open spec fn opt_evidence(
    d: DeviceView,
    source: Seq<char>,
    key: Seq<char>,
    value: Option<Seq<char>>,
    confidence: Confidence,
) -> DeviceView {
    match value {
        Some(v) => d.add_evidence(source, key, v, confidence),
        None => d,
    }
}

/// Reports one fact, where there is one.
fn add_opt_evidence(
    device: &mut Device,
    source: &str,
    key: &str,
    value: &Option<String>,
    confidence: Confidence,
)
    ensures
        final(device)@ == opt_evidence(
            old(device)@,
            source@,
            key@,
            value.deep_view(),
            confidence,
        ),
        old(device)@.extended_by(final(device)@),
{
    broadcast use crate::model::lemma_extended_refl;

    match value {
        Some(v) => device.add_evidence(source, key, v.as_str(), confidence),
        None => {},
    }
}

/// The device with a MAC address, unless it has one.
pub open spec fn filled_mac(d: DeviceView, mac: Option<Seq<char>>) -> DeviceView {
    if d.mac is None {
        DeviceView { mac, ..d }
    } else {
        d
    }
}

/// Sets the MAC address of a device that has none.
pub fn fill_mac(device: &mut Device, mac: Option<String>)
    ensures
        final(device)@ == filled_mac(old(device)@, mac.deep_view()),
        old(device)@.extended_by(final(device)@),
{
    if device.mac.is_none() {
        device.mac = mac;
    }
    proof {
        reveal(DeviceView::extended_by);
    }
}

/// The device with the vendor of its MAC address, unless it has one or either is
/// unknown.
pub open spec fn filled_vendor(d: DeviceView, db: Option<TextMapView>) -> DeviceView {
    match (d.vendor, d.mac, db) {
        (None, Some(mac), Some(db)) => DeviceView { vendor: oui::vendor_spec(db, mac), ..d },
        _ => d,
    }
}

/// Looks up the vendor of a device that has none.
fn fill_vendor(device: &mut Device, db: Option<&TextMap>)
    ensures
        final(device)@ == filled_vendor(old(device)@, opt_map(db)),
        old(device)@.extended_by(final(device)@),
{
    if device.vendor.is_none() {
        if let Some(db) = db {
            if let Some(mac) = &device.mac {
                device.vendor = lookup_vendor(mac.as_str(), db);
            }
        }
    }
    proof {
        reveal(DeviceView::extended_by);
    }
}

/// The device after a hint at its operating system, where there is one.
pub open spec fn hinted_os(
    d: DeviceView,
    hint: Option<(Seq<char>, Confidence)>,
    source: Seq<char>,
) -> DeviceView {
    match hint {
        Some((os, confidence)) => d.set_os(os, source, confidence),
        None => d,
    }
}

/// Takes a hint at the operating system.
fn set_hinted_os(device: &mut Device, hint: Option<(&'static str, Confidence)>, source: &str)
    ensures
        final(device)@ == hinted_os(old(device)@, deep::hint_view(hint), source@),
        old(device)@.extended_by(final(device)@),
{
    broadcast use crate::model::lemma_extended_refl;

    match hint {
        Some((os, confidence)) => device.set_os_guess(os, source, confidence),
        None => {},
    }
}

/// The device after one header of an HTTP response.
pub open spec fn with_http_header(d: DeviceView, h: HttpHeaderView) -> DeviceView {
    let d = d.add_evidence("http"@, deep::header_key_spec(h.name), h.value, 75);
    if h.name == "server"@ {
        hinted_os(
            d.add_evidence("http"@, "http_server"@, h.value, 75),
            deep::os_hint_spec("http"@, h.value),
            "http"@,
        )
    } else {
        d
    }
}

/// Takes one header of an HTTP response.
fn add_http_header(device: &mut Device, h: &HttpHeader)
    ensures
        final(device)@ == with_http_header(old(device)@, h@),
        old(device)@.extended_by(final(device)@),
{
    broadcast use crate::model::lemma_extended_trans;

    let value = h.value.as_str();
    device.add_evidence("http", header_evidence_key(h.name.as_str()).as_str(), value, 75);
    if str_eq(h.name.as_str(), "server") {
        device.add_evidence("http", "http_server", value, 75);
        set_hinted_os(device, os_hint_from_banner("http", value), "http");
    }
}

/// What an open port says of a device. It is weak identity by itself, but still useful
/// as a service signal and as input to identity rules.
#[verifier::opaque]
pub open spec fn with_port(d: DeviceView, p: PortProbeView) -> DeviceView {
    let d = d.add_service(p.service, "deep"@, Some(p.port), 70);
    let d = match deep::type_hint_spec(p.port) {
        Some((device_type, confidence)) => d.set_device_type(device_type, "deep"@, confidence),
        None => d,
    };
    let d = if p.port == 445 || p.port == 139 {
        d.set_os("Windows/SMB capable"@, "deep"@, 45)
    } else {
        d
    };
    match p.banner {
        Some(banner) => {
            let d = d.add_evidence("deep"@, p.service + "_banner"@, banner, 75);
            let d = opt_evidence(
                d,
                "deep"@,
                "http_server"@,
                deep::server_in_lines(text::split_char_spec(banner, '|')),
                70,
            );
            hinted_os(d, deep::os_hint_spec(p.service, banner), "deep"@)
        },
        None => d,
    }
}

/// Takes what an open port says.
fn apply_port(device: &mut Device, p: &PortProbe)
    ensures
        final(device)@ == with_port(old(device)@, p@),
        old(device)@.extended_by(final(device)@),
{
    broadcast use crate::model::lemma_extended_trans;

    proof {
        reveal(with_port);
    }
    device.add_service(p.service.as_str(), "deep", Some(p.port), 70);
    if let Some((device_type, confidence)) = device_type_hint_from_port(p.port) {
        device.set_device_type_guess(device_type, "deep", confidence);
    }
    if p.port == 445 || p.port == 139 {
        device.set_os_guess("Windows/SMB capable", "deep", 45);
    }
    match &p.banner {
        Some(banner) => {
            let banner = banner.as_str();
            device.add_evidence(
                "deep",
                concat(p.service.as_str(), "_banner").as_str(),
                banner,
                75,
            );
            add_opt_evidence(device, "deep", "http_server", &http_server_from_banner(banner), 70);
            set_hinted_os(device, os_hint_from_banner(p.service.as_str(), banner), "deep");
        },
        None => {},
    }
}

/// What HTTP says of a device. Headers have their own source because they often
/// outlive the generic TCP probe in exports and rule matching.
#[verifier::opaque]
pub open spec fn with_http(d: DeviceView, p: PortProbeView) -> DeviceView {
    let d = each_header(d, p.http_headers);
    match p.favicon {
        Some(f) => d.add_evidence("http"@, "favicon_sha256"@, f.sha256, 72).add_evidence(
            "http"@,
            "favicon_url"@,
            f.url,
            55,
        ).add_evidence("http"@, "favicon_bytes"@, text::decimal_spec(f.bytes as nat), 50),
        None => d,
    }
}

/// Takes what HTTP says.
fn apply_http(device: &mut Device, p: &PortProbe)
    ensures
        final(device)@ == with_http(old(device)@, p@),
        old(device)@.extended_by(final(device)@),
{
    broadcast use crate::model::lemma_extended_trans;

    proof {
        reveal(with_http);
    }
    add_each_header(device, &p.http_headers);
    match &p.favicon {
        Some(f) => {
            device.add_evidence("http", "favicon_sha256", f.sha256.as_str(), 72);
            device.add_evidence("http", "favicon_url", f.url.as_str(), 55);
            device.add_evidence("http", "favicon_bytes", decimal(f.bytes as u64).as_str(), 50);
        },
        None => {},
    }
}

/// What a certificate says of a device.
#[verifier::opaque]
pub open spec fn with_tls(d: DeviceView, p: PortProbeView) -> DeviceView {
    match p.tls {
        Some(t) => {
            let d = d.add_evidence("tls"@, "tls_cert_sha256"@, t.sha256, 72);
            let d = opt_evidence(d, "tls"@, "tls_subject"@, t.subject, 70);
            let d = opt_evidence(d, "tls"@, "tls_issuer"@, t.issuer, 65);
            opt_evidence(d, "tls"@, "tls_not_after"@, t.not_after, 55)
        },
        None => d,
    }
}

/// Takes what a certificate says.
fn apply_tls(device: &mut Device, p: &PortProbe)
    ensures
        final(device)@ == with_tls(old(device)@, p@),
        old(device)@.extended_by(final(device)@),
{
    broadcast use {crate::model::lemma_extended_refl, crate::model::lemma_extended_trans};

    proof {
        reveal(with_tls);
    }
    match &p.tls {
        Some(t) => {
            device.add_evidence("tls", "tls_cert_sha256", t.sha256.as_str(), 72);
            add_opt_evidence(device, "tls", "tls_subject", &t.subject, 70);
            add_opt_evidence(device, "tls", "tls_issuer", &t.issuer, 65);
            add_opt_evidence(device, "tls", "tls_not_after", &t.not_after, 55);
        },
        None => {},
    }
}

/// The device after one port probe, as far as its sources are wanted.
pub open spec fn with_probe(d: DeviceView, p: PortProbeView, options: ProbeOptions) -> DeviceView {
    let d = if options.deep {
        with_port(d, p)
    } else {
        d
    };
    let d = if options.http {
        with_http(d, p)
    } else {
        d
    };
    if options.tls {
        with_tls(d, p)
    } else {
        d
    }
}

/// Takes one port probe, as far as its sources are wanted.
fn apply_probe(device: &mut Device, p: &PortProbe, options: ProbeOptions)
    ensures
        final(device)@ == with_probe(old(device)@, p@, options),
        old(device)@.extended_by(final(device)@),
{
    broadcast use {crate::model::lemma_extended_refl, crate::model::lemma_extended_trans};

    if options.deep {
        apply_port(device, p);
    }
    if options.http {
        apply_http(device, p);
    }
    if options.tls {
        apply_tls(device, p);
    }
}

/// The device after a source reported several values of one fact.
pub open spec fn each_evidence(d: DeviceView, source: Seq<char>, key: Seq<char>, values: Seq<Seq<char>>, confidence: Confidence) -> DeviceView
    decreases values.len(),
{
    if values.len() == 0 {
        d
    } else {
        let d = each_evidence(d, source, key, values.drop_last(), confidence);
        let v = values.last();
        d.add_evidence(source, key, v, confidence)
    }
}

/// Adds several values of one fact from a source to a device.
pub fn add_each_evidence(device: &mut Device, source: &str, key: &str, values: &Vec<String>, confidence: Confidence)
    ensures
        final(device)@ == each_evidence(old(device)@, source@, key@, values.deep_view(), confidence),
        old(device)@.extended_by(final(device)@),
{
    broadcast use {crate::model::lemma_extended_refl, crate::model::lemma_extended_trans};

    let ghost views = values.deep_view();
    let mut i: usize = 0;
    while i < values.len()
        invariant
            i <= values@.len(),
            views == values.deep_view(),
            device@ == each_evidence(old(device)@, source@, key@, views.take(i as int), confidence),
            old(device)@.extended_by(device@),
        decreases values@.len() - i,
    {
        broadcast use crate::model::lemma_extended_trans;

        proof {
            assert(views.take(i + 1).drop_last() =~= views.take(i as int));
            assert(views.take(i + 1).last() == values@[i as int]@);
        }
        let v = &values[i];
        device.add_evidence(source, key, v.as_str(), confidence);
        i = i + 1;
    }
    proof {
        assert(views.take(i as int) =~= views);
    }
}

/// The device after a source reported several names.
pub open spec fn each_name(d: DeviceView, names: Seq<Seq<char>>, source: Seq<char>, confidence: Confidence) -> DeviceView
    decreases names.len(),
{
    if names.len() == 0 {
        d
    } else {
        let d = each_name(d, names.drop_last(), source, confidence);
        let v = names.last();
        d.add_name(v, source, confidence)
    }
}

/// Adds several names from a source to a device.
pub fn add_each_name(device: &mut Device, names: &Vec<String>, source: &str, confidence: Confidence)
    ensures
        final(device)@ == each_name(old(device)@, names.deep_view(), source@, confidence),
        old(device)@.extended_by(final(device)@),
{
    broadcast use {crate::model::lemma_extended_refl, crate::model::lemma_extended_trans};

    let ghost views = names.deep_view();
    let mut i: usize = 0;
    while i < names.len()
        invariant
            i <= names@.len(),
            views == names.deep_view(),
            device@ == each_name(old(device)@, views.take(i as int), source@, confidence),
            old(device)@.extended_by(device@),
        decreases names@.len() - i,
    {
        broadcast use crate::model::lemma_extended_trans;

        proof {
            assert(views.take(i + 1).drop_last() =~= views.take(i as int));
            assert(views.take(i + 1).last() == names@[i as int]@);
        }
        let v = &names[i];
        device.add_name(v.as_str(), source, confidence);
        i = i + 1;
    }
    proof {
        assert(views.take(i as int) =~= views);
    }
}

/// The device after a source reported several services.
pub open spec fn each_service(d: DeviceView, names: Seq<Seq<char>>, source: Seq<char>, confidence: Confidence) -> DeviceView
    decreases names.len(),
{
    if names.len() == 0 {
        d
    } else {
        let d = each_service(d, names.drop_last(), source, confidence);
        let v = names.last();
        d.add_service(v, source, None, confidence)
    }
}

/// Adds several services from a source to a device.
pub fn add_each_service(device: &mut Device, names: &Vec<String>, source: &str, confidence: Confidence)
    ensures
        final(device)@ == each_service(old(device)@, names.deep_view(), source@, confidence),
        old(device)@.extended_by(final(device)@),
{
    broadcast use {crate::model::lemma_extended_refl, crate::model::lemma_extended_trans};

    let ghost views = names.deep_view();
    let mut i: usize = 0;
    while i < names.len()
        invariant
            i <= names@.len(),
            views == names.deep_view(),
            device@ == each_service(old(device)@, views.take(i as int), source@, confidence),
            old(device)@.extended_by(device@),
        decreases names@.len() - i,
    {
        broadcast use crate::model::lemma_extended_trans;

        proof {
            assert(views.take(i + 1).drop_last() =~= views.take(i as int));
            assert(views.take(i + 1).last() == names@[i as int]@);
        }
        let v = &names[i];
        device.add_service(v.as_str(), source, None, confidence);
        i = i + 1;
    }
    proof {
        assert(views.take(i as int) =~= views);
    }
}

/// The device after mDNS reported several services.
pub open spec fn each_mdns_service(d: DeviceView, services: Seq<MdnsServiceView>) -> DeviceView
    decreases services.len(),
{
    if services.len() == 0 {
        d
    } else {
        let d = each_mdns_service(d, services.drop_last());
        let v = services.last();
        d.add_service(v.name, "mdns"@, v.port, 75)
    }
}

/// Reports mDNS reported several services.
pub fn add_each_mdns_service(device: &mut Device, services: &Vec<MdnsService>)
    ensures
        final(device)@ == each_mdns_service(old(device)@, services.deep_view()),
        old(device)@.extended_by(final(device)@),
{
    broadcast use {crate::model::lemma_extended_refl, crate::model::lemma_extended_trans};

    let ghost views = services.deep_view();
    let mut i: usize = 0;
    while i < services.len()
        invariant
            i <= services@.len(),
            views == services.deep_view(),
            device@ == each_mdns_service(old(device)@, views.take(i as int)),
            old(device)@.extended_by(device@),
        decreases services@.len() - i,
    {
        broadcast use crate::model::lemma_extended_trans;

        proof {
            assert(views.take(i + 1).drop_last() =~= views.take(i as int));
            assert(views.take(i + 1).last() == services@[i as int]@);
        }
        let v = &services[i];
        device.add_service(v.name.as_str(), "mdns", v.port, 75);
        i = i + 1;
    }
    proof {
        assert(views.take(i as int) =~= views);
    }
}

/// The device after the names of another record of it.
pub open spec fn merged_names(d: DeviceView, names: Seq<NameEvidenceView>) -> DeviceView
    decreases names.len(),
{
    if names.len() == 0 {
        d
    } else {
        let d = merged_names(d, names.drop_last());
        let v = names.last();
        d.add_name(v.name, v.source, v.confidence)
    }
}

/// Reports the names of another record of it.
pub fn merge_names(device: &mut Device, names: &Vec<NameEvidence>)
    ensures
        final(device)@ == merged_names(old(device)@, names.deep_view()),
        old(device)@.extended_by(final(device)@),
{
    broadcast use {crate::model::lemma_extended_refl, crate::model::lemma_extended_trans};

    let ghost views = names.deep_view();
    let mut i: usize = 0;
    while i < names.len()
        invariant
            i <= names@.len(),
            views == names.deep_view(),
            device@ == merged_names(old(device)@, views.take(i as int)),
            old(device)@.extended_by(device@),
        decreases names@.len() - i,
    {
        broadcast use crate::model::lemma_extended_trans;

        proof {
            assert(views.take(i + 1).drop_last() =~= views.take(i as int));
            assert(views.take(i + 1).last() == names@[i as int]@);
        }
        let v = &names[i];
        device.add_name(v.name.as_str(), v.source.as_str(), v.confidence);
        i = i + 1;
    }
    proof {
        assert(views.take(i as int) =~= views);
    }
}

/// The device after the services of another record of it.
pub open spec fn merged_services(d: DeviceView, services: Seq<ServiceEvidenceView>) -> DeviceView
    decreases services.len(),
{
    if services.len() == 0 {
        d
    } else {
        let d = merged_services(d, services.drop_last());
        let v = services.last();
        d.add_service(v.name, v.source, v.port, v.confidence)
    }
}

/// Reports the services of another record of it.
pub fn merge_services(device: &mut Device, services: &Vec<ServiceEvidence>)
    ensures
        final(device)@ == merged_services(old(device)@, services.deep_view()),
        old(device)@.extended_by(final(device)@),
{
    broadcast use {crate::model::lemma_extended_refl, crate::model::lemma_extended_trans};

    let ghost views = services.deep_view();
    let mut i: usize = 0;
    while i < services.len()
        invariant
            i <= services@.len(),
            views == services.deep_view(),
            device@ == merged_services(old(device)@, views.take(i as int)),
            old(device)@.extended_by(device@),
        decreases services@.len() - i,
    {
        broadcast use crate::model::lemma_extended_trans;

        proof {
            assert(views.take(i + 1).drop_last() =~= views.take(i as int));
            assert(views.take(i + 1).last() == services@[i as int]@);
        }
        let v = &services[i];
        device.add_service(v.name.as_str(), v.source.as_str(), v.port, v.confidence);
        i = i + 1;
    }
    proof {
        assert(views.take(i as int) =~= views);
    }
}

/// The device after the facts of another record of it.
pub open spec fn merged_evidence(d: DeviceView, facts: Seq<EvidenceView>) -> DeviceView
    decreases facts.len(),
{
    if facts.len() == 0 {
        d
    } else {
        let d = merged_evidence(d, facts.drop_last());
        let v = facts.last();
        d.add_evidence(v.source, v.key, v.value, v.confidence)
    }
}

/// Reports the facts of another record of it.
pub fn merge_evidence(device: &mut Device, facts: &Vec<Evidence>)
    ensures
        final(device)@ == merged_evidence(old(device)@, facts.deep_view()),
        old(device)@.extended_by(final(device)@),
{
    broadcast use {crate::model::lemma_extended_refl, crate::model::lemma_extended_trans};

    let ghost views = facts.deep_view();
    let mut i: usize = 0;
    while i < facts.len()
        invariant
            i <= facts@.len(),
            views == facts.deep_view(),
            device@ == merged_evidence(old(device)@, views.take(i as int)),
            old(device)@.extended_by(device@),
        decreases facts@.len() - i,
    {
        broadcast use crate::model::lemma_extended_trans;

        proof {
            assert(views.take(i + 1).drop_last() =~= views.take(i as int));
            assert(views.take(i + 1).last() == facts@[i as int]@);
        }
        let v = &facts[i];
        device.add_evidence(v.source.as_str(), v.key.as_str(), v.value.as_str(), v.confidence);
        i = i + 1;
    }
    proof {
        assert(views.take(i as int) =~= views);
    }
}

/// The device after the headers of an HTTP response.
pub open spec fn each_header(d: DeviceView, headers: Seq<HttpHeaderView>) -> DeviceView
    decreases headers.len(),
{
    if headers.len() == 0 {
        d
    } else {
        let d = each_header(d, headers.drop_last());
        let v = headers.last();
        with_http_header(d, v)
    }
}

/// Reports the headers of an HTTP response.
pub fn add_each_header(device: &mut Device, headers: &Vec<HttpHeader>)
    ensures
        final(device)@ == each_header(old(device)@, headers.deep_view()),
        old(device)@.extended_by(final(device)@),
{
    broadcast use {crate::model::lemma_extended_refl, crate::model::lemma_extended_trans};

    let ghost views = headers.deep_view();
    let mut i: usize = 0;
    while i < headers.len()
        invariant
            i <= headers@.len(),
            views == headers.deep_view(),
            device@ == each_header(old(device)@, views.take(i as int)),
            old(device)@.extended_by(device@),
        decreases headers@.len() - i,
    {
        broadcast use crate::model::lemma_extended_trans;

        proof {
            assert(views.take(i + 1).drop_last() =~= views.take(i as int));
            assert(views.take(i + 1).last() == headers@[i as int]@);
        }
        let v = &headers[i];
        add_http_header(device, v);
        i = i + 1;
    }
    proof {
        assert(views.take(i as int) =~= views);
    }
}

/// The device after several port probes.
pub open spec fn each_probe(d: DeviceView, probes: Seq<PortProbeView>, options: ProbeOptions) -> DeviceView
    decreases probes.len(),
{
    if probes.len() == 0 {
        d
    } else {
        let d = each_probe(d, probes.drop_last(), options);
        let v = probes.last();
        with_probe(d, v, options)
    }
}

/// Reports several port probes.
pub fn apply_each_probe(device: &mut Device, probes: &Vec<PortProbe>, options: ProbeOptions)
    ensures
        final(device)@ == each_probe(old(device)@, probes.deep_view(), options),
        old(device)@.extended_by(final(device)@),
{
    broadcast use {crate::model::lemma_extended_refl, crate::model::lemma_extended_trans};

    let ghost views = probes.deep_view();
    let mut i: usize = 0;
    while i < probes.len()
        invariant
            i <= probes@.len(),
            views == probes.deep_view(),
            device@ == each_probe(old(device)@, views.take(i as int), options),
            old(device)@.extended_by(device@),
        decreases probes@.len() - i,
    {
        broadcast use crate::model::lemma_extended_trans;

        proof {
            assert(views.take(i + 1).drop_last() =~= views.take(i as int));
            assert(views.take(i + 1).last() == probes@[i as int]@);
        }
        let v = &probes[i];
        apply_probe(device, v, options);
        i = i + 1;
    }
    proof {
        assert(views.take(i as int) =~= views);
    }
}

/// The device after what mDNS said of it.
#[verifier::opaque]
pub open spec fn apply_mdns_info_spec(d: DeviceView, info: MdnsInfoView) -> DeviceView {
    let d = each_name(d, info.names, "mdns"@, 90);
    let d = match info.model {
        Some(v) => d.add_evidence("mdns"@, "model"@, v, 85).set_model(v, "mdns"@, 85).set_device_type(v, "mdns"@, 65),
        None => d,
    };
    let d = match info.os {
        Some(v) => d.set_os(v, "mdns"@, 85),
        None => d,
    };
    let d = each_mdns_service(d, info.services);
    d
}

/// Adds what mDNS said of a device.
///
/// mDNS is usually name-rich and often model-rich. The raw model is kept as evidence
/// before it is promoted so identity rules can still inspect it even if another
/// source later wins the best-guess slot.
pub fn apply_mdns_info(device: &mut Device, info: MdnsInfo)
    ensures
        final(device)@ == apply_mdns_info_spec(old(device)@, info@),
        old(device)@.extended_by(final(device)@),
{
    broadcast use {crate::model::lemma_extended_refl, crate::model::lemma_extended_trans};

    proof {
        reveal(apply_mdns_info_spec);
    }
    add_each_name(device, &info.names, "mdns", 90);
    match &info.model {
        Some(v) => {
            device.add_evidence("mdns", "model", v.as_str(), 85);
            device.set_model_guess(v.as_str(), "mdns", 85);
            device.set_device_type_guess(v.as_str(), "mdns", 65);
        },
        None => {},
    }
    match &info.os {
        Some(v) => {
            device.set_os_guess(v.as_str(), "mdns", 85);
        },
        None => {},
    }
    add_each_mdns_service(device, &info.services);
}

/// The device after what UPnP said of it.
#[verifier::opaque]
pub open spec fn apply_upnp_info_spec(d: DeviceView, info: UpnpInfoView) -> DeviceView {
    let d = each_name(d, info.names, "upnp"@, 85);
    let d = match info.manufacturer {
        Some(v) => d.set_make(v, "upnp"@, 80).add_evidence("upnp"@, "manufacturer"@, v, 80),
        None => d,
    };
    let d = match info.model {
        Some(v) => d.set_model(v, "upnp"@, 85).add_evidence("upnp"@, "model"@, v, 85).set_device_type(v, "upnp"@, 60),
        None => d,
    };
    let d = match info.device_type {
        Some(v) => d.add_evidence("upnp"@, "device_type"@, v, 80).set_device_type(upnp::friendly_type_spec(v), "upnp"@, 75),
        None => d,
    };
    let d = match info.server {
        Some(v) => hinted_os(
            d.add_evidence("upnp"@, "server"@, v, 65),
            deep::os_hint_spec("http"@, v),
            "upnp"@,
        ),
        None => d,
    };
    let d = opt_evidence(d, "upnp"@, "location"@, info.location, 55);
    let d = each_evidence(d, "upnp"@, "usn"@, info.usns, 55);
    let d = each_service(d, info.services, "upnp"@, 70);
    d
}

/// Adds what UPnP said of a device.
///
/// Descriptions provide both human labels and structured device types. The raw URN
/// stays in evidence and the friendly type becomes the guess.
pub fn apply_upnp_info(device: &mut Device, info: UpnpInfo)
    ensures
        final(device)@ == apply_upnp_info_spec(old(device)@, info@),
        old(device)@.extended_by(final(device)@),
{
    broadcast use {crate::model::lemma_extended_refl, crate::model::lemma_extended_trans};

    proof {
        reveal(apply_upnp_info_spec);
    }
    add_each_name(device, &info.names, "upnp", 85);
    match &info.manufacturer {
        Some(v) => {
            device.set_make_guess(v.as_str(), "upnp", 80);
            device.add_evidence("upnp", "manufacturer", v.as_str(), 80);
        },
        None => {},
    }
    match &info.model {
        Some(v) => {
            device.set_model_guess(v.as_str(), "upnp", 85);
            device.add_evidence("upnp", "model", v.as_str(), 85);
            device.set_device_type_guess(v.as_str(), "upnp", 60);
        },
        None => {},
    }
    match &info.device_type {
        Some(v) => {
            device.add_evidence("upnp", "device_type", v.as_str(), 80);
            device.set_device_type_guess(friendly_device_type(v.as_str()).as_str(), "upnp", 75);
        },
        None => {},
    }
    match &info.server {
        Some(v) => {
            device.add_evidence("upnp", "server", v.as_str(), 65);
            set_hinted_os(device, os_hint_from_banner("http", v.as_str()), "upnp");
        },
        None => {},
    }
    add_opt_evidence(device, "upnp", "location", &info.location, 55);
    add_each_evidence(device, "upnp", "usn", &info.usns, 55);
    add_each_service(device, &info.services, "upnp", 70);
}

/// The device after what a lease said of it.
#[verifier::opaque]
pub open spec fn apply_dhcp_lease_spec(d: DeviceView, info: DhcpLeaseView, oui_db: Option<TextMapView>) -> DeviceView {
    let d = match info.mac {
        Some(v) => filled_mac(d, Some(v)).add_evidence("dhcp"@, "mac"@, v, 55),
        None => d,
    };
    let d = filled_vendor(d, oui_db);
    let d = match info.hostname {
        Some(v) => d.add_name(v, "dhcp"@, 72),
        None => d,
    };
    let d = opt_evidence(d, "dhcp"@, "client_id"@, info.client_id, 55);
    let d = opt_evidence(d, "dhcp"@, "vendor_class"@, info.vendor_class, 65);
    let d = opt_evidence(d, "dhcp"@, "lease_source"@, info.source, 35);
    d
}

/// Adds what a lease said of a device.
///
/// DHCP is passive and sometimes stale. It can fill missing MAC, vendor, and name
/// fields, but it does not replace direct ARP or protocol evidence.
pub fn apply_dhcp_lease(device: &mut Device, info: DhcpLease, oui_db: Option<&TextMap>)
    ensures
        final(device)@ == apply_dhcp_lease_spec(old(device)@, info@, opt_map(oui_db)),
        old(device)@.extended_by(final(device)@),
{
    broadcast use {crate::model::lemma_extended_refl, crate::model::lemma_extended_trans};

    proof {
        reveal(apply_dhcp_lease_spec);
    }
    match &info.mac {
        Some(v) => {
            fill_mac(device, Some(v.clone()));
            device.add_evidence("dhcp", "mac", v.as_str(), 55);
        },
        None => {},
    }
    fill_vendor(device, oui_db);
    match &info.hostname {
        Some(v) => {
            device.add_name(v.as_str(), "dhcp", 72);
        },
        None => {},
    }
    add_opt_evidence(device, "dhcp", "client_id", &info.client_id, 55);
    add_opt_evidence(device, "dhcp", "vendor_class", &info.vendor_class, 65);
    add_opt_evidence(device, "dhcp", "lease_source", &info.source, 35);
}

/// The device after what SNMP said of it.
#[verifier::opaque]
pub open spec fn apply_snmp_info_spec(d: DeviceView, info: SnmpInfoView) -> DeviceView {
    let d = d.add_service("snmp"@, "snmp"@, Some(161), 75);
    let d = match info.sys_name {
        Some(v) => d.add_name(v, "snmp"@, 82).add_evidence("snmp"@, "sysName"@, v, 82),
        None => d,
    };
    let d = match info.sys_descr {
        Some(v) => d.add_evidence("snmp"@, "sysDescr"@, v, 90).set_os(v, "snmp"@, 85),
        None => d,
    };
    let d = opt_evidence(d, "snmp"@, "sysObjectID"@, info.sys_object_id, 85);
    let d = match info.sys_services {
        Some(v) => {
            let d = d.add_evidence("snmp"@, "sysServices"@, text::decimal_spec(v as nat), 75);
            if v & 4 != 0 {
                d.set_device_type("network-device"@, "snmp"@, 55)
            } else {
                d
            }
        },
        None => d,
    };
    let d = opt_evidence(d, "snmp"@, "sysContact"@, info.sys_contact, 45);
    let d = opt_evidence(d, "snmp"@, "sysLocation"@, info.sys_location, 45);
    d
}

/// Adds what SNMP said of a device.
///
/// System group fields are high-signal for routers, switches, printers, and NAS
/// devices. Every field is preserved so site-specific rules can refine the
/// classification later.
pub fn apply_snmp_info(device: &mut Device, info: SnmpInfo)
    ensures
        final(device)@ == apply_snmp_info_spec(old(device)@, info@),
        old(device)@.extended_by(final(device)@),
{
    broadcast use {crate::model::lemma_extended_refl, crate::model::lemma_extended_trans};

    proof {
        reveal(apply_snmp_info_spec);
    }
    device.add_service("snmp", "snmp", Some(161), 75);
    match &info.sys_name {
        Some(v) => {
            device.add_name(v.as_str(), "snmp", 82);
            device.add_evidence("snmp", "sysName", v.as_str(), 82);
        },
        None => {},
    }
    match &info.sys_descr {
        Some(v) => {
            device.add_evidence("snmp", "sysDescr", v.as_str(), 90);
            device.set_os_guess(v.as_str(), "snmp", 85);
        },
        None => {},
    }
    add_opt_evidence(device, "snmp", "sysObjectID", &info.sys_object_id, 85);
    match info.sys_services {
        Some(v) => {
            device.add_evidence("snmp", "sysServices", decimal(v as u64).as_str(), 75);
            if v & 4 != 0 {
                device.set_device_type_guess("network-device", "snmp", 55);
            }
        },
        None => {},
    }
    add_opt_evidence(device, "snmp", "sysContact", &info.sys_contact, 45);
    add_opt_evidence(device, "snmp", "sysLocation", &info.sys_location, 45);
}

/// The device after an LLDP advertisement.
#[verifier::opaque]
pub open spec fn apply_lldp_info_spec(d: DeviceView, info: LldpInfoView, oui_db: Option<TextMapView>) -> DeviceView {
    let d = d.add_service("lldp"@, "lldp"@, None, 72);
    let d = filled_mac(
        d,
        match info.chassis_mac {
            Some(v) => Some(v),
            None => Some(info.source_mac),
        },
    );
    let d = filled_vendor(d, oui_db);
    let d = d.add_evidence("lldp"@, "source_mac"@, info.source_mac, 76);
    let d = opt_evidence(d, "lldp"@, "chassis_id"@, info.chassis_id, 82);
    let d = opt_evidence(d, "lldp"@, "chassis_id_subtype"@, info.chassis_id_subtype, 62);
    let d = opt_evidence(d, "lldp"@, "chassis_mac"@, info.chassis_mac, 82);
    let d = opt_evidence(d, "lldp"@, "port_id"@, info.port_id, 70);
    let d = opt_evidence(d, "lldp"@, "port_id_subtype"@, info.port_id_subtype, 55);
    let d = match info.ttl {
        Some(v) => d.add_evidence("lldp"@, "ttl"@, text::decimal_spec(v as nat), 45),
        None => d,
    };
    let d = opt_evidence(d, "lldp"@, "port_description"@, info.port_description, 65);
    let d = match info.system_name {
        Some(v) => d.add_name(v, "lldp"@, 88).add_evidence("lldp"@, "system_name"@, v, 88),
        None => d,
    };
    let d = match info.system_description {
        Some(v) => d.add_evidence("lldp"@, "system_description"@, v, 90).set_os(v, "lldp"@, 82),
        None => d,
    };
    let d = each_evidence(d, "lldp"@, "system_capability"@, info.system_capabilities, 70);
    let d = each_evidence(d, "lldp"@, "enabled_capability"@, info.enabled_capabilities, 82);
    let d = each_evidence(
        d,
        "lldp"@,
        "management_address"@,
        addr::address_texts_spec(info.management_addresses),
        84,
    );
    let d = if info.enabled_capabilities.contains("wlan-access-point"@) {
        d.set_device_type("wireless-ap"@, "lldp"@, 88)
    } else if info.enabled_capabilities.contains("router"@) {
        d.set_device_type("router"@, "lldp"@, 86)
    } else if info.enabled_capabilities.contains("bridge"@) {
        d.set_device_type("switch"@, "lldp"@, 86)
    } else if info.enabled_capabilities.len() > 0 {
        d.set_device_type("network-device"@, "lldp"@, 72)
    } else {
        d
    };
    d
}

/// Adds an LLDP advertisement.
pub fn apply_lldp_info(device: &mut Device, info: LldpInfo, oui_db: Option<&TextMap>)
    ensures
        final(device)@ == apply_lldp_info_spec(old(device)@, info@, opt_map(oui_db)),
        old(device)@.extended_by(final(device)@),
{
    broadcast use {crate::model::lemma_extended_refl, crate::model::lemma_extended_trans};

    proof {
        reveal(apply_lldp_info_spec);
    }
    device.add_service("lldp", "lldp", None, 72);
    fill_mac(
        device,
        match &info.chassis_mac {
            Some(v) => Some(v.clone()),
            None => Some(info.source_mac.clone()),
        },
    );
    fill_vendor(device, oui_db);
    device.add_evidence("lldp", "source_mac", info.source_mac.as_str(), 76);
    add_opt_evidence(device, "lldp", "chassis_id", &info.chassis_id, 82);
    add_opt_evidence(device, "lldp", "chassis_id_subtype", &info.chassis_id_subtype, 62);
    add_opt_evidence(device, "lldp", "chassis_mac", &info.chassis_mac, 82);
    add_opt_evidence(device, "lldp", "port_id", &info.port_id, 70);
    add_opt_evidence(device, "lldp", "port_id_subtype", &info.port_id_subtype, 55);
    match info.ttl {
        Some(v) => {
            device.add_evidence("lldp", "ttl", decimal(v as u64).as_str(), 45);
        },
        None => {},
    }
    add_opt_evidence(device, "lldp", "port_description", &info.port_description, 65);
    match &info.system_name {
        Some(v) => {
            device.add_name(v.as_str(), "lldp", 88);
            device.add_evidence("lldp", "system_name", v.as_str(), 88);
        },
        None => {},
    }
    match &info.system_description {
        Some(v) => {
            device.add_evidence("lldp", "system_description", v.as_str(), 90);
            device.set_os_guess(v.as_str(), "lldp", 82);
        },
        None => {},
    }
    add_each_evidence(device, "lldp", "system_capability", &info.system_capabilities, 70);
    add_each_evidence(device, "lldp", "enabled_capability", &info.enabled_capabilities, 82);
    add_each_evidence(device, "lldp", "management_address", &address_texts(&info.management_addresses), 84);
    if holds(&info.enabled_capabilities, &owned("wlan-access-point")) {
        device.set_device_type_guess("wireless-ap", "lldp", 88);
    } else if holds(&info.enabled_capabilities, &owned("router")) {
        device.set_device_type_guess("router", "lldp", 86);
    } else if holds(&info.enabled_capabilities, &owned("bridge")) {
        device.set_device_type_guess("switch", "lldp", 86);
    } else if info.enabled_capabilities.len() > 0 {
        device.set_device_type_guess("network-device", "lldp", 72);
    }
}

/// The device after a CDP advertisement.
#[verifier::opaque]
pub open spec fn apply_cdp_info_spec(d: DeviceView, info: CdpInfoView, oui_db: Option<TextMapView>) -> DeviceView {
    let d = d.add_service("cdp"@, "cdp"@, None, 72);
    let d = filled_mac(d, Some(info.source_mac));
    let d = filled_vendor(d, oui_db);
    let d = d.add_evidence("cdp"@, "source_mac"@, info.source_mac, 76);
    let d = d.add_evidence("cdp"@, "version"@, text::decimal_spec(info.version as nat), 45);
    let d = d.add_evidence("cdp"@, "ttl"@, text::decimal_spec(info.ttl as nat), 45);
    let d = match info.device_id {
        Some(v) => d.add_name(v, "cdp"@, 88).add_evidence("cdp"@, "device_id"@, v, 88),
        None => d,
    };
    let d = opt_evidence(d, "cdp"@, "port_id"@, info.port_id, 70);
    let d = match info.software_version {
        Some(v) => d.add_evidence("cdp"@, "software_version"@, v, 90).set_os(v, "cdp"@, 82),
        None => d,
    };
    let d = match info.platform {
        Some(v) => d.add_evidence("cdp"@, "platform"@, v, 86).set_model(v, "cdp"@, 82).set_make("Cisco"@, "cdp"@, 78),
        None => d,
    };
    let d = match info.native_vlan {
        Some(v) => d.add_evidence("cdp"@, "native_vlan"@, text::decimal_spec(v as nat), 55),
        None => d,
    };
    let d = opt_evidence(d, "cdp"@, "duplex"@, info.duplex, 45);
    let d = each_evidence(d, "cdp"@, "capability"@, info.capabilities, 82);
    let d = each_evidence(
        d,
        "cdp"@,
        "address"@,
        addr::address_texts_spec(info.addresses),
        78,
    );
    let d = each_evidence(
        d,
        "cdp"@,
        "management_address"@,
        addr::address_texts_spec(info.management_addresses),
        84,
    );
    let d = if info.capabilities.contains("phone"@) {
        d.set_device_type("phone"@, "cdp"@, 88)
    } else if info.capabilities.contains("router"@) {
        d.set_device_type("router"@, "cdp"@, 86)
    } else if info.capabilities.contains("switch"@) {
        d.set_device_type("switch"@, "cdp"@, 86)
    } else if info.capabilities.len() > 0 {
        d.set_device_type("network-device"@, "cdp"@, 72)
    } else {
        d
    };
    d
}

/// Adds a CDP advertisement.
pub fn apply_cdp_info(device: &mut Device, info: CdpInfo, oui_db: Option<&TextMap>)
    ensures
        final(device)@ == apply_cdp_info_spec(old(device)@, info@, opt_map(oui_db)),
        old(device)@.extended_by(final(device)@),
{
    broadcast use {crate::model::lemma_extended_refl, crate::model::lemma_extended_trans};

    proof {
        reveal(apply_cdp_info_spec);
    }
    device.add_service("cdp", "cdp", None, 72);
    fill_mac(device, Some(info.source_mac.clone()));
    fill_vendor(device, oui_db);
    device.add_evidence("cdp", "source_mac", info.source_mac.as_str(), 76);
    device.add_evidence("cdp", "version", decimal(info.version as u64).as_str(), 45);
    device.add_evidence("cdp", "ttl", decimal(info.ttl as u64).as_str(), 45);
    match &info.device_id {
        Some(v) => {
            device.add_name(v.as_str(), "cdp", 88);
            device.add_evidence("cdp", "device_id", v.as_str(), 88);
        },
        None => {},
    }
    add_opt_evidence(device, "cdp", "port_id", &info.port_id, 70);
    match &info.software_version {
        Some(v) => {
            device.add_evidence("cdp", "software_version", v.as_str(), 90);
            device.set_os_guess(v.as_str(), "cdp", 82);
        },
        None => {},
    }
    match &info.platform {
        Some(v) => {
            device.add_evidence("cdp", "platform", v.as_str(), 86);
            device.set_model_guess(v.as_str(), "cdp", 82);
            device.set_make_guess("Cisco", "cdp", 78);
        },
        None => {},
    }
    match info.native_vlan {
        Some(v) => {
            device.add_evidence("cdp", "native_vlan", decimal(v as u64).as_str(), 55);
        },
        None => {},
    }
    add_opt_evidence(device, "cdp", "duplex", &info.duplex, 45);
    add_each_evidence(device, "cdp", "capability", &info.capabilities, 82);
    add_each_evidence(device, "cdp", "address", &address_texts(&info.addresses), 78);
    add_each_evidence(device, "cdp", "management_address", &address_texts(&info.management_addresses), 84);
    if holds(&info.capabilities, &owned("phone")) {
        device.set_device_type_guess("phone", "cdp", 88);
    } else if holds(&info.capabilities, &owned("router")) {
        device.set_device_type_guess("router", "cdp", 86);
    } else if holds(&info.capabilities, &owned("switch")) {
        device.set_device_type_guess("switch", "cdp", 86);
    } else if info.capabilities.len() > 0 {
        device.set_device_type_guess("network-device", "cdp", 72);
    }
}

/// The device after what SMB said of it.
#[verifier::opaque]
pub open spec fn apply_smb_info_spec(d: DeviceView, info: SmbInfoView) -> DeviceView {
    let d = d.add_service("smb"@, "smb"@, Some(445), 78);
    let d = opt_evidence(d, "smb"@, "smb_dialect"@, info.dialect, 78);
    let d = match info.signing_required {
        Some(v) => d.add_evidence("smb"@, "smb_signing_required"@, truth_spec(v), 65),
        None => d,
    };
    let d = opt_evidence(d, "smb"@, "smb_server_guid"@, info.server_guid, 65);
    let d = match info.native_os {
        Some(v) => {
            let d = d.add_evidence("smb"@, "smb_native_os"@, v, 85);
            if text::contains_spec(text::lower_spec(v), "windows"@) {
                d.set_os("Windows"@, "smb"@, 78)
            } else {
                d
            }
        },
        None => d,
    };
    let d = match info.native_lanman {
        Some(v) => {
            let d = d.add_evidence("smb"@, "smb_native_lanman"@, v, 78);
            if text::contains_spec(text::lower_spec(v), "samba"@) {
                d.set_os("Unix-like"@, "smb"@, 68)
            } else {
                d
            }
        },
        None => d,
    };
    let d = match info.dns_computer_name {
        Some(v) => d.add_name(v, "smb"@, 86).add_evidence("smb"@, "smb_dns_computer_name"@, v, 86),
        None => d,
    };
    let d = match info.netbios_computer_name {
        Some(v) => d.add_name(v, "smb"@, 82).add_evidence("smb"@, "smb_netbios_computer_name"@, v, 82),
        None => d,
    };
    d
}

/// Adds what SMB said of a device.
///
/// Negotiate and session-setup data is intentionally shallow: it identifies the
/// server stack and host names without authenticating or enumerating shares.
pub fn apply_smb_info(device: &mut Device, info: SmbInfo)
    ensures
        final(device)@ == apply_smb_info_spec(old(device)@, info@),
        old(device)@.extended_by(final(device)@),
{
    broadcast use {crate::model::lemma_extended_refl, crate::model::lemma_extended_trans};

    proof {
        reveal(apply_smb_info_spec);
    }
    device.add_service("smb", "smb", Some(445), 78);
    add_opt_evidence(device, "smb", "smb_dialect", &info.dialect, 78);
    match info.signing_required {
        Some(v) => {
            device.add_evidence("smb", "smb_signing_required", truth(v), 65);
        },
        None => {},
    }
    add_opt_evidence(device, "smb", "smb_server_guid", &info.server_guid, 65);
    match &info.native_os {
        Some(v) => {
            device.add_evidence("smb", "smb_native_os", v.as_str(), 85);
            if mentions(v.as_str(), "windows") {
                device.set_os_guess("Windows", "smb", 78);
            }
        },
        None => {},
    }
    match &info.native_lanman {
        Some(v) => {
            device.add_evidence("smb", "smb_native_lanman", v.as_str(), 78);
            if mentions(v.as_str(), "samba") {
                device.set_os_guess("Unix-like", "smb", 68);
            }
        },
        None => {},
    }
    match &info.dns_computer_name {
        Some(v) => {
            device.add_name(v.as_str(), "smb", 86);
            device.add_evidence("smb", "smb_dns_computer_name", v.as_str(), 86);
        },
        None => {},
    }
    match &info.netbios_computer_name {
        Some(v) => {
            device.add_name(v.as_str(), "smb", 82);
            device.add_evidence("smb", "smb_netbios_computer_name", v.as_str(), 82);
        },
        None => {},
    }
}

/// Adds what port probes said of a device, as far as their sources are wanted.
pub fn apply_deep_probes(device: &mut Device, probes: Vec<PortProbe>, options: ProbeOptions)
    ensures
        final(device)@ == each_probe(old(device)@, probes.deep_view(), options),
        old(device)@.extended_by(final(device)@),
{
    apply_each_probe(device, &probes, options);
}

/// The devices with the vendor of every MAC address that is known.
pub open spec fn with_vendors(devices: Seq<DeviceView>, db: TextMapView) -> Seq<DeviceView> {
    devices.map_values(
        |d: DeviceView|
            match d.mac {
                Some(mac) => DeviceView { vendor: oui::vendor_spec(db, mac), ..d },
                None => d,
            },
    )
}

/// Looks up the vendor of every device whose MAC address is known.
pub fn apply_oui(devices: &mut Vec<Device>, db: &TextMap)
    ensures
        final(devices).deep_view() == with_vendors(old(devices).deep_view(), db@),
{
    let ghost views = devices.deep_view();
    let ghost want = with_vendors(views, db@);
    let mut i: usize = 0;
    while i < devices.len()
        invariant
            i <= devices@.len(),
            views.len() == devices@.len(),
            want == with_vendors(views, db@),
            forall|k: int|
                0 <= k < devices@.len() ==> (#[trigger] devices@[k])@ == (if k < i {
                    want[k]
                } else {
                    views[k]
                }),
        decreases devices@.len() - i,
    {
        let mut device = devices[i].clone();
        if let Some(mac) = &device.mac {
            device.vendor = lookup_vendor(mac.as_str(), db);
        }
        proof {
            assert(device@ == want[i as int]);
        }
        devices.set(i, device);
        i = i + 1;
    }
    proof {
        assert(devices.deep_view() =~= want);
    }
}

/// The device after another record of it. The records are united: scalar fields only
/// fill blanks, and guesses go by confidence. The times span both records.
#[verifier::opaque]
pub open spec fn merge_device_spec(d: DeviceView, other: DeviceView) -> DeviceView {
    let d = filled_mac(d, other.mac);
    let d = if d.vendor is None {
        DeviceView { vendor: other.vendor, ..d }
    } else {
        d
    };
    let d = merged_names(d, other.names);
    let d = match other.make {
        Some(g) => d.set_make(g.value, g.source, g.confidence),
        None => d,
    };
    let d = match other.model {
        Some(g) => d.set_model(g.value, g.source, g.confidence),
        None => d,
    };
    let d = match other.os {
        Some(g) => d.set_os(g.value, g.source, g.confidence),
        None => d,
    };
    let d = match other.device_type {
        Some(g) => d.set_device_type(g.value, g.source, g.confidence),
        None => d,
    };
    let d = merged_services(d, other.services);
    let d = merged_evidence(d, other.evidence);
    DeviceView {
        first_seen: if other.first_seen < d.first_seen {
            other.first_seen
        } else {
            d.first_seen
        },
        last_seen: if other.last_seen > d.last_seen {
            other.last_seen
        } else {
            d.last_seen
        },
        ..d
    }
}

/// `after` holds everything that `before` holds, whatever its times are.
pub open spec fn keeps_all(before: DeviceView, after: DeviceView) -> bool {
    before.extended_by(
        DeviceView { first_seen: before.first_seen, last_seen: before.last_seen, ..after },
    )
}

/// Unites a device with another record of it.
pub fn merge_device(device: &mut Device, other: &Device)
    ensures
        final(device)@ == merge_device_spec(old(device)@, other@),
        keeps_all(old(device)@, final(device)@),
        final(device)@.first_seen == (if other.first_seen < old(device)@.first_seen {
            other.first_seen
        } else {
            old(device)@.first_seen
        }),
        final(device)@.last_seen == (if other.last_seen > old(device)@.last_seen {
            other.last_seen
        } else {
            old(device)@.last_seen
        }),
{
    broadcast use {crate::model::lemma_extended_refl, crate::model::lemma_extended_trans};

    proof {
        reveal(merge_device_spec);
    }
    fill_mac(device, other.mac.clone());
    let ghost before = device@;
    if device.vendor.is_none() {
        device.vendor = other.vendor.clone();
    }
    proof {
        assert(before.extended_by(device@)) by {
            reveal(DeviceView::extended_by);
        }
    }
    merge_names(device, &other.names);
    match &other.make {
        Some(g) => device.set_make_guess(g.value.as_str(), g.source.as_str(), g.confidence),
        None => {},
    }
    match &other.model {
        Some(g) => device.set_model_guess(g.value.as_str(), g.source.as_str(), g.confidence),
        None => {},
    }
    match &other.os {
        Some(g) => device.set_os_guess(g.value.as_str(), g.source.as_str(), g.confidence),
        None => {},
    }
    match &other.device_type {
        Some(g) => device.set_device_type_guess(g.value.as_str(), g.source.as_str(), g.confidence),
        None => {},
    }
    merge_services(device, &other.services);
    merge_evidence(device, &other.evidence);
    let ghost united = device@;
    proof {
        assert(old(device)@.extended_by(united));
        assert(united.first_seen == old(device)@.first_seen && united.last_seen == old(
            device,
        )@.last_seen) by {
            reveal(DeviceView::extended_by);
        }
    }
    if other.first_seen < device.first_seen {
        device.first_seen = other.first_seen;
    }
    if other.last_seen > device.last_seen {
        device.last_seen = other.last_seen;
    }
    proof {
        assert(united == (DeviceView {
            first_seen: old(device)@.first_seen,
            last_seen: old(device)@.last_seen,
            ..device@
        }));
    }
}

/// The interface and the address that tell devices apart.
pub open spec fn device_key(d: DeviceView) -> (Seq<char>, IpAddr) {
    (text::or_empty_spec(d.interface), d.ip)
}

/// The order of devices: by interface, then by address.
pub open spec fn key_before(a: (Seq<char>, IpAddr), b: (Seq<char>, IpAddr)) -> bool {
    text::less_spec(a.0, b.0) || (a.0 == b.0 && a.1.less_spec(b.1))
}

/// Devices by interface and address.
pub struct DeviceByInterface {}

impl SortOrder<Device> for DeviceByInterface {
    open spec fn before(a: DeviceView, b: DeviceView) -> bool {
        key_before(device_key(a), device_key(b))
    }

    fn comes_before(a: &Device, b: &Device) -> (r: bool) {
        let left = chars(or_empty(&a.interface).as_str());
        let right = chars(or_empty(&b.interface).as_str());
        proof {
            text::lemma_less_total(left@, right@);
        }
        if less(left.as_slice(), right.as_slice()) {
            true
        } else if less(right.as_slice(), left.as_slice()) {
            false
        } else {
            a.ip.less(&b.ip)
        }
    }

    proof fn asymmetric(a: DeviceView, b: DeviceView) {
        text::lemma_less_total(device_key(a).0, device_key(b).0);
    }

    proof fn transitive(a: DeviceView, b: DeviceView, c: DeviceView) {
        let x = device_key(a).0;
        let y = device_key(b).0;
        let z = device_key(c).0;
        text::lemma_less_total(x, y);
        text::lemma_less_total(y, z);
        text::lemma_less_total(x, z);
        if x != y && y != z {
            text::lemma_less_transitive(x, y, z);
        }
    }
}

/// The position of the device with a key, or the length when there is none.
pub open spec fn key_place(list: Seq<DeviceView>, key: (Seq<char>, IpAddr)) -> int
    decreases list.len(),
{
    if list.len() == 0 || device_key(list[0]) == key {
        0
    } else {
        1 + key_place(list.drop_first(), key)
    }
}

/// The list after one more record: united with the record of the same key where there
/// is one, else in its place.
pub open spec fn with_record(list: Seq<DeviceView>, d: DeviceView) -> Seq<DeviceView> {
    let k = key_place(list, device_key(d));
    if k < list.len() {
        list.update(k, merge_device_spec(list[k], d))
    } else {
        sort::insert_spec::<Device, DeviceByInterface>(list, d)
    }
}

/// Several records united by interface and address.
pub open spec fn united(devices: Seq<DeviceView>) -> Seq<DeviceView>
    decreases devices.len(),
{
    if devices.len() == 0 {
        seq![]
    } else {
        with_record(united(devices.drop_last()), devices.last())
    }
}

/// Finds the device with the key of another.
fn find_key(list: &Vec<Device>, d: &Device) -> (r: usize)
    ensures
        r == key_place(list.deep_view(), device_key(d@)),
        r <= list@.len(),
{
    let ghost views = list.deep_view();
    let interface = or_empty(&d.interface);
    let mut i: usize = 0;
    proof {
        assert(views.skip(0) =~= views);
    }
    while i < list.len()
        invariant
            i <= list@.len(),
            views == list.deep_view(),
            interface@ == text::or_empty_spec(d@.interface),
            key_place(views, device_key(d@)) == i + key_place(views.skip(i as int), device_key(d@)),
        decreases list@.len() - i,
    {
        proof {
            assert(views.skip(i as int)[0] == list@[i as int]@);
            assert(views.skip(i as int).drop_first() =~= views.skip(i + 1));
        }
        if list[i].ip == d.ip && str_eq(or_empty(&list[i].interface).as_str(), interface.as_str()) {
            return i;
        }
        i = i + 1;
    }
    i
}

/// Unites records of the same device. Parallel enrichment can produce partial records
/// of one host; overlapping addresses on different interfaces stay apart.
pub fn merge_devices_by_interface_ip(devices: Vec<Device>) -> (r: Vec<Device>)
    ensures
        r.deep_view() == united(devices.deep_view()),
{
    let ghost views = devices.deep_view();
    let mut list: Vec<Device> = Vec::new();
    let mut i: usize = 0;
    proof {
        assert(list.deep_view() =~= seq![]);
    }
    while i < devices.len()
        invariant
            i <= devices@.len(),
            views == devices.deep_view(),
            list.deep_view() == united(views.take(i as int)),
        decreases devices@.len() - i,
    {
        proof {
            assert(views.take(i + 1).drop_last() =~= views.take(i as int));
            assert(views.take(i + 1).last() == devices@[i as int]@);
        }
        let ghost before = list.deep_view();
        let k: usize = find_key(&list, &devices[i]);
        if k < list.len() {
            let mut device = list[k].clone();
            merge_device(&mut device, &devices[i]);
            let ghost view = device@;
            list.set(k, device);
            proof {
                assert(list.deep_view() =~= before.update(k as int, view));
            }
        } else {
            insert::<Device, DeviceByInterface>(&mut list, devices[i].clone());
        }
        i = i + 1;
    }
    proof {
        assert(views.take(i as int) =~= views);
    }
    list
}

/// Uniting names keeps everything that was there, and holds every name that is not
/// blank.
proof fn lemma_merged_names(d: DeviceView, names: Seq<NameEvidenceView>)
    ensures
        d.extended_by(merged_names(d, names)),
        forall|i: int|
            0 <= i < names.len() && model::normalize_name_spec((#[trigger] names[i]).name).len() > 0
                ==> merged_names(d, names).knows_name(
                model::normalize_name_spec(names[i].name),
                names[i].source,
            ),
    decreases names.len(),
{
    broadcast use {crate::model::lemma_extended_refl, crate::model::lemma_extended_trans};

    if names.len() > 0 {
        let v = names.last();
        lemma_merged_names(d, names.drop_last());
        model::law_reports_erase_nothing(
            merged_names(d, names.drop_last()),
            v.source,
            seq![],
            v.name,
            None,
            v.confidence,
        );
        let before = merged_names(d, names.drop_last());
        model::law_reports_are_held(before, v.source, seq![], v.name, None, v.confidence);
        model::lemma_extension_knows(before, merged_names(d, names));
        assert forall|i: int|
            0 <= i < names.len() && model::normalize_name_spec((#[trigger] names[i]).name).len()
                > 0 implies merged_names(d, names).knows_name(
            model::normalize_name_spec(names[i].name),
            names[i].source,
        ) by {
            if i < names.len() - 1 {
                assert(names.drop_last()[i] == names[i]);
            }
        }
    }
}

/// Uniting services keeps everything that was there, and holds every service that is
/// not blank.
proof fn lemma_merged_services(d: DeviceView, services: Seq<ServiceEvidenceView>)
    ensures
        d.extended_by(merged_services(d, services)),
        forall|i: int|
            0 <= i < services.len() && !model::blank((#[trigger] services[i]).name)
                ==> merged_services(d, services).knows_service(
                services[i].name,
                services[i].source,
                services[i].port,
            ),
    decreases services.len(),
{
    broadcast use {crate::model::lemma_extended_refl, crate::model::lemma_extended_trans};

    if services.len() > 0 {
        let v = services.last();
        lemma_merged_services(d, services.drop_last());
        model::law_reports_erase_nothing(
            merged_services(d, services.drop_last()),
            v.source,
            seq![],
            v.name,
            v.port,
            v.confidence,
        );
        let before = merged_services(d, services.drop_last());
        model::law_reports_are_held(before, v.source, seq![], v.name, v.port, v.confidence);
        model::lemma_extension_knows(before, merged_services(d, services));
        assert forall|i: int|
            0 <= i < services.len() && !model::blank(
                (#[trigger] services[i]).name,
            ) implies merged_services(d, services).knows_service(
            services[i].name,
            services[i].source,
            services[i].port,
        ) by {
            if i < services.len() - 1 {
                assert(services.drop_last()[i] == services[i]);
            }
        }
    }
}

/// Uniting facts keeps everything that was there, and holds every fact that is not
/// blank.
proof fn lemma_merged_evidence(d: DeviceView, facts: Seq<EvidenceView>)
    ensures
        d.extended_by(merged_evidence(d, facts)),
        forall|i: int|
            0 <= i < facts.len() && !model::blank((#[trigger] facts[i]).value)
                ==> merged_evidence(d, facts).knows_evidence(
                facts[i].source,
                facts[i].key,
                facts[i].value,
            ),
    decreases facts.len(),
{
    broadcast use {crate::model::lemma_extended_refl, crate::model::lemma_extended_trans};

    if facts.len() > 0 {
        let v = facts.last();
        lemma_merged_evidence(d, facts.drop_last());
        model::law_reports_erase_nothing(
            merged_evidence(d, facts.drop_last()),
            v.source,
            v.key,
            v.value,
            None,
            v.confidence,
        );
        let before = merged_evidence(d, facts.drop_last());
        model::law_reports_are_held(before, v.source, v.key, v.value, None, v.confidence);
        model::lemma_extension_knows(before, merged_evidence(d, facts));
        assert forall|i: int|
            0 <= i < facts.len() && !model::blank(
                (#[trigger] facts[i]).value,
            ) implies merged_evidence(d, facts).knows_evidence(
            facts[i].source,
            facts[i].key,
            facts[i].value,
        ) by {
            if i < facts.len() - 1 {
                assert(facts.drop_last()[i] == facts[i]);
            }
        }
    }
}

/// Each step of a merge brings its part of the other record, and later steps keep it.
proof fn lemma_merge_holds(
    b: DeviceView,
    c: DeviceView,
    e: DeviceView,
    f: DeviceView,
    h: DeviceView,
    i: DeviceView,
    j: DeviceView,
    k: DeviceView,
    other: DeviceView,
)
    requires
        other.mac is Some ==> b.mac is Some,
        other.vendor is Some ==> b.vendor is Some,
        b.extended_by(c),
        c.extended_by(e),
        e.extended_by(f),
        f.extended_by(h),
        h.extended_by(i),
        i.extended_by(j),
        j.extended_by(k),
        c == merged_names(b, other.names),
        other.make matches Some(g) ==> e == c.set_make(g.value, g.source, g.confidence),
        other.model matches Some(g) ==> f == e.set_model(g.value, g.source, g.confidence),
        other.os matches Some(g) ==> h == f.set_os(g.value, g.source, g.confidence),
        other.device_type matches Some(g) ==> i == h.set_device_type(
            g.value,
            g.source,
            g.confidence,
        ),
        j == merged_services(i, other.services),
        k == merged_evidence(j, other.evidence),
    ensures
        k.holds(other),
{
    broadcast use crate::model::lemma_extended_trans;

    lemma_merged_names(b, other.names);
    lemma_merged_services(i, other.services);
    lemma_merged_evidence(j, other.evidence);
    assert(f.extended_by(k) && h.extended_by(k) && i.extended_by(k) && e.extended_by(k)
        && c.extended_by(k) && b.extended_by(k));
    model::lemma_extension_knows(c, k);
    model::lemma_extension_knows(j, k);
    if let Some(g) = other.make {
        model::law_reports_are_held(c, g.source, seq![], g.value, None, g.confidence);
    }
    if let Some(g) = other.model {
        model::law_reports_are_held(e, g.source, seq![], g.value, None, g.confidence);
    }
    if let Some(g) = other.os {
        model::law_reports_are_held(f, g.source, seq![], g.value, None, g.confidence);
    }
    if let Some(g) = other.device_type {
        model::law_reports_are_held(h, g.source, seq![], g.value, None, g.confidence);
    }
    reveal(DeviceView::extended_by);
}

/// A device that is united with another record of it keeps its interface, its address,
/// and everything it held, and holds what the other record says; its times span both
/// records.
pub proof fn law_merge_keeps_all(d: DeviceView, other: DeviceView)
    ensures
        keeps_all(d, merge_device_spec(d, other)),
        merge_device_spec(d, other).holds(other),
        device_key(merge_device_spec(d, other)) == device_key(d),
        merge_device_spec(d, other).first_seen == (if other.first_seen < d.first_seen {
            other.first_seen
        } else {
            d.first_seen
        }),
        merge_device_spec(d, other).last_seen == (if other.last_seen > d.last_seen {
            other.last_seen
        } else {
            d.last_seen
        }),
{
    broadcast use {crate::model::lemma_extended_refl, crate::model::lemma_extended_trans};

    reveal(merge_device_spec);
    let a = filled_mac(d, other.mac);
    let b = if a.vendor is None {
        DeviceView { vendor: other.vendor, ..a }
    } else {
        a
    };
    assert(d.extended_by(b)) by {
        reveal(DeviceView::extended_by);
    }
    let c = merged_names(b, other.names);
    lemma_merged_names(b, other.names);
    let e = match other.make {
        Some(g) => {
            model::law_reports_erase_nothing(c, g.source, seq![], g.value, None, g.confidence);
            c.set_make(g.value, g.source, g.confidence)
        },
        None => c,
    };
    let f = match other.model {
        Some(g) => {
            model::law_reports_erase_nothing(e, g.source, seq![], g.value, None, g.confidence);
            e.set_model(g.value, g.source, g.confidence)
        },
        None => e,
    };
    let h = match other.os {
        Some(g) => {
            model::law_reports_erase_nothing(f, g.source, seq![], g.value, None, g.confidence);
            f.set_os(g.value, g.source, g.confidence)
        },
        None => f,
    };
    let i = match other.device_type {
        Some(g) => {
            model::law_reports_erase_nothing(h, g.source, seq![], g.value, None, g.confidence);
            h.set_device_type(g.value, g.source, g.confidence)
        },
        None => h,
    };
    let j = merged_services(i, other.services);
    lemma_merged_services(i, other.services);
    let k = merged_evidence(j, other.evidence);
    lemma_merged_evidence(j, other.evidence);
    assert(d.extended_by(k));
    assert(k.first_seen == d.first_seen && k.last_seen == d.last_seen && k.ip == d.ip
        && k.interface == d.interface) by {
        reveal(DeviceView::extended_by);
    }
    let m = merge_device_spec(d, other);
    assert(k == (DeviceView { first_seen: d.first_seen, last_seen: d.last_seen, ..m }));
    lemma_merge_holds(b, c, e, f, h, i, j, k, other);
    assert(k.holds(other));
}

/// No two devices of the list have the same interface and address.
pub open spec fn apart(list: Seq<DeviceView>) -> bool {
    forall|i: int, j: int|
        0 <= i < j < list.len() ==> device_key(#[trigger] list[i]) != device_key(
            #[trigger] list[j],
        )
}

/// The list holds a device with this key.
pub open spec fn has_key(list: Seq<DeviceView>, key: (Seq<char>, IpAddr)) -> bool {
    exists|i: int| 0 <= i < list.len() && device_key(#[trigger] list[i]) == key
}

/// What [`key_place`] finds.
proof fn lemma_key_place(list: Seq<DeviceView>, key: (Seq<char>, IpAddr))
    ensures
        0 <= key_place(list, key) <= list.len(),
        key_place(list, key) < list.len() <==> has_key(list, key),
        key_place(list, key) < list.len() ==> device_key(list[key_place(list, key)]) == key,
    decreases list.len(),
{
    if list.len() > 0 && device_key(list[0]) != key {
        let rest = list.drop_first();
        lemma_key_place(rest, key);
        if has_key(rest, key) {
            let i = choose|i: int| 0 <= i < rest.len() && device_key(#[trigger] rest[i]) == key;
            assert(list[i + 1] == rest[i]);
        }
        if has_key(list, key) {
            let i = choose|i: int| 0 <= i < list.len() && device_key(#[trigger] list[i]) == key;
            assert(rest[i - 1] == list[i]);
        }
    }
}

/// Inserting a device whose key is new keeps devices apart.
proof fn lemma_insert_apart(list: Seq<DeviceView>, d: DeviceView)
    requires
        apart(list),
        !has_key(list, device_key(d)),
    ensures
        apart(sort::insert_spec::<Device, DeviceByInterface>(list, d)),
        forall|key: (Seq<char>, IpAddr)|
            has_key(sort::insert_spec::<Device, DeviceByInterface>(list, d), key) <==> has_key(list, key)
                || key == device_key(d),
    decreases list.len(),
{
    let r = sort::insert_spec::<Device, DeviceByInterface>(list, d);
    if list.len() == 0 || !DeviceByInterface::before(d, list.last()) {
        assert forall|key: (Seq<char>, IpAddr)| has_key(r, key) <==> has_key(list, key) || key
            == device_key(d) by {
            if has_key(list, key) {
                let i = choose|i: int|
                    0 <= i < list.len() && device_key(#[trigger] list[i]) == key;
                assert(r[i] == list[i]);
            }
            if has_key(r, key) {
                let i = choose|i: int| 0 <= i < r.len() && device_key(#[trigger] r[i]) == key;
                if i < list.len() {
                    assert(r[i] == list[i]);
                }
            }
            assert(r[list.len() as int] == d);
        }
        assert forall|i: int, j: int| 0 <= i < j < r.len() implies device_key(#[trigger] r[i])
            != device_key(#[trigger] r[j]) by {
            assert(r[i] == list[i]);
        }
    } else {
        let front = list.drop_last();
        let inner = sort::insert_spec::<Device, DeviceByInterface>(front, d);
        let last = list.last();
        if has_key(front, device_key(d)) {
            let i = choose|i: int|
                0 <= i < front.len() && device_key(#[trigger] front[i]) == device_key(d);
            assert(list[i] == front[i]);
        }
        assert forall|i: int, j: int| 0 <= i < j < front.len() implies device_key(
            #[trigger] front[i],
        ) != device_key(#[trigger] front[j]) by {
            assert(list[i] == front[i] && list[j] == front[j]);
        }
        lemma_insert_apart(front, d);
        assert(r =~= inner.push(last));
        if has_key(front, device_key(last)) {
            let i = choose|i: int|
                0 <= i < front.len() && device_key(#[trigger] front[i]) == device_key(last);
            assert(list[i] == front[i]);
            assert(false);
        }
        assert(device_key(list[list.len() - 1]) == device_key(last));
        assert(!has_key(inner, device_key(last)));
        assert forall|i: int, j: int| 0 <= i < j < r.len() implies device_key(#[trigger] r[i])
            != device_key(#[trigger] r[j]) by {
            assert(r[i] == inner[i]);
            if j < inner.len() {
                assert(r[j] == inner[j]);
            }
        }
        assert forall|key: (Seq<char>, IpAddr)| has_key(r, key) <==> has_key(list, key) || key
            == device_key(d) by {
            if has_key(r, key) {
                let i = choose|i: int| 0 <= i < r.len() && device_key(#[trigger] r[i]) == key;
                if i < inner.len() {
                    assert(inner[i] == r[i]);
                    assert(has_key(inner, key));
                    if key != device_key(d) {
                        assert(has_key(front, key));
                        let m = choose|m: int|
                            0 <= m < front.len() && device_key(#[trigger] front[m]) == key;
                        assert(list[m] == front[m]);
                    }
                } else {
                    assert(list[list.len() - 1] == r[i]);
                }
            }
            if has_key(list, key) || key == device_key(d) {
                if key == device_key(last) {
                    assert(r[inner.len() as int] == last);
                } else {
                    if has_key(list, key) {
                        let m = choose|m: int|
                            0 <= m < list.len() && device_key(#[trigger] list[m]) == key;
                        assert(front[m] == list[m]);
                        assert(has_key(front, key));
                    }
                    assert(has_key(inner, key));
                    let i = choose|i: int|
                        0 <= i < inner.len() && device_key(#[trigger] inner[i]) == key;
                    assert(r[i] == inner[i]);
                }
            }
        }
    }
}

/// Records are united exactly where interface and address agree: the list holds one
/// device for each pair that occurs, and none for any other. The same address on two
/// interfaces stays two devices.
pub proof fn law_devices_stay_apart(devices: Seq<DeviceView>)
    ensures
        apart(united(devices)),
        forall|key: (Seq<char>, IpAddr)|
            has_key(united(devices), key) <==> has_key(devices, key),
    decreases devices.len(),
{
    if devices.len() > 0 {
        let front = devices.drop_last();
        let d = devices.last();
        let list = united(front);
        let r = united(devices);
        let k = key_place(list, device_key(d));
        law_devices_stay_apart(front);
        lemma_key_place(list, device_key(d));
        if k < list.len() {
            law_merge_keeps_all(list[k], d);
            assert forall|i: int| 0 <= i < list.len() implies device_key(#[trigger] r[i])
                == device_key(list[i]) by {}
            assert forall|i: int, j: int| 0 <= i < j < r.len() implies device_key(#[trigger] r[i])
                != device_key(#[trigger] r[j]) by {
                assert(device_key(list[i]) != device_key(list[j]));
            }
            assert forall|key: (Seq<char>, IpAddr)| has_key(r, key) <==> has_key(list, key) by {
                if has_key(r, key) {
                    let i = choose|i: int| 0 <= i < r.len() && device_key(#[trigger] r[i]) == key;
                    assert(device_key(list[i]) == key);
                }
                if has_key(list, key) {
                    let i = choose|i: int|
                        0 <= i < list.len() && device_key(#[trigger] list[i]) == key;
                    assert(device_key(r[i]) == key);
                }
            }
        } else {
            lemma_insert_apart(list, d);
        }
        assert forall|key: (Seq<char>, IpAddr)| has_key(r, key) <==> has_key(devices, key) by {
            if has_key(devices, key) {
                let i = choose|i: int|
                    0 <= i < devices.len() && device_key(#[trigger] devices[i]) == key;
                if i < front.len() {
                    assert(front[i] == devices[i]);
                }
            }
            if has_key(front, key) {
                let i = choose|i: int|
                    0 <= i < front.len() && device_key(#[trigger] front[i]) == key;
                assert(devices[i] == front[i]);
            }
            assert(devices[devices.len() - 1] == d);
            if k < list.len() && key == device_key(d) {
                assert(has_key(list, key));
            }
        }
    }
}

/// A device covers a record of it: it has the key of the record, keeps the record or
/// holds what it says, and its times span those of the record.
pub open spec fn covers(device: DeviceView, record: DeviceView) -> bool {
    &&& device_key(device) == device_key(record)
    &&& keeps_all(record, device) || device.holds(record)
    &&& device.first_seen <= record.first_seen
    &&& device.last_seen >= record.last_seen
}

/// A list has a device that covers a record.
pub open spec fn has_cover(list: Seq<DeviceView>, record: DeviceView) -> bool {
    exists|i: int| 0 <= i < list.len() && covers(#[trigger] list[i], record)
}

/// A device that covers a record still covers it after it is united with another one.
proof fn lemma_merge_covers(device: DeviceView, record: DeviceView, other: DeviceView)
    requires
        covers(device, record),
        device_key(device) == device_key(other),
    ensures
        covers(merge_device_spec(device, other), record),
        covers(merge_device_spec(device, other), other),
{
    broadcast use crate::model::lemma_extended_trans;

    law_merge_keeps_all(device, other);
    let after = merge_device_spec(device, other);
    let same_times = DeviceView {
        first_seen: device.first_seen,
        last_seen: device.last_seen,
        ..after
    };
    if keeps_all(record, device) {
        let kept = DeviceView {
            first_seen: record.first_seen,
            last_seen: record.last_seen,
            ..device
        };
        let later = DeviceView {
            first_seen: record.first_seen,
            last_seen: record.last_seen,
            ..after
        };
        assert(kept.extended_by(later)) by {
            reveal(DeviceView::extended_by);
        }
    } else {
        model::lemma_extension_holds(device, same_times, record);
    }
}

/// Uniting records loses nothing: the list has a device that covers each of them.
pub proof fn law_united_records_are_covered(devices: Seq<DeviceView>, n: int)
    requires
        0 <= n < devices.len(),
    ensures
        has_cover(united(devices), devices[n]),
    decreases devices.len(),
{
    broadcast use crate::model::lemma_extended_refl;

    let front = devices.drop_last();
    let d = devices.last();
    let list = united(front);
    let r = united(devices);
    let k = key_place(list, device_key(d));
    lemma_key_place(list, device_key(d));
    assert(covers(d, d));
    if n < front.len() {
        law_united_records_are_covered(front, n);
        let i = choose|i: int| 0 <= i < list.len() && covers(#[trigger] list[i], front[n]);
        if k < list.len() {
            if i == k {
                lemma_merge_covers(list[k], front[n], d);
                assert(covers(r[k], devices[n]));
            } else {
                assert(covers(r[i], devices[n]));
            }
        } else {
            sort::lemma_insert_keeps::<Device, DeviceByInterface>(list, d, list[i]);
            let j = choose|j: int| 0 <= j < r.len() && r[j] == list[i];
            assert(covers(r[j], devices[n]));
        }
    } else if k < list.len() {
        assert(covers(list[k], list[k]));
        lemma_merge_covers(list[k], list[k], d);
        assert(covers(r[k], devices[n]));
    } else {
        sort::lemma_insert_keeps::<Device, DeviceByInterface>(list, d, d);
        let j = choose|j: int| 0 <= j < r.len() && r[j] == d;
        assert(covers(r[j], devices[n]));
    }
}

} // verus!
