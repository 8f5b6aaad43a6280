//! Core scan data model.
//!
//! Collectors append raw names, services, and evidence; identity rules and
//! output code read those facts and write best-effort guesses. Keeping both the
//! raw observations and the chosen guesses in the model lets exports explain why
//! a device was classified without making every collector know every rule.

pub mod weighed;

use crate::addr::IpAddr;
use crate::same::Same;
use crate::text::{
    chars, owned, same_ignoring_case, str_eq, text, trim, trim_end_char, trim_end_text,
};
use crate::text;
use vstd::prelude::*;

verus! {

/// A point in time: nanoseconds since 1970-01-01 00:00 UTC.
pub type Timestamp = i128;

/// A confidence in hundredths: 85 stands for 0.85.
pub type Confidence = u32;

/// A name under which some protocol knows a device.
#[derive(Debug, PartialEq, Eq)]
pub struct NameEvidence {
    pub name: String,
    pub source: String,
    pub confidence: Confidence,
}

/// The mathematical content of a [`NameEvidence`].
#[verifier::ext_equal]
pub struct NameEvidenceView {
    pub name: Seq<char>,
    pub source: Seq<char>,
    pub confidence: Confidence,
}

impl View for NameEvidence {
    type V = NameEvidenceView;

    open spec fn view(&self) -> NameEvidenceView {
        NameEvidenceView {
            name: self.name@,
            source: self.source@,
            confidence: self.confidence,
        }
    }
}

impl DeepView for NameEvidence {
    type V = NameEvidenceView;

    open spec fn deep_view(&self) -> NameEvidenceView {
        self@
    }
}

impl Clone for NameEvidence {
    fn clone(&self) -> (r: Self)
        ensures
            r@ == self@,
    {
        let r = NameEvidence {
            name: self.name.clone(),
            source: self.source.clone(),
            confidence: self.confidence,
        };
        r
    }
}

/// A best guess at one identity field.
#[derive(Debug, PartialEq, Eq)]
pub struct Guess {
    pub value: String,
    pub source: String,
    pub confidence: Confidence,
}

/// The mathematical content of a [`Guess`].
#[verifier::ext_equal]
pub struct GuessView {
    pub value: Seq<char>,
    pub source: Seq<char>,
    pub confidence: Confidence,
}

impl View for Guess {
    type V = GuessView;

    open spec fn view(&self) -> GuessView {
        GuessView {
            value: self.value@,
            source: self.source@,
            confidence: self.confidence,
        }
    }
}

impl DeepView for Guess {
    type V = GuessView;

    open spec fn deep_view(&self) -> GuessView {
        self@
    }
}

impl Clone for Guess {
    fn clone(&self) -> (r: Self)
        ensures
            r@ == self@,
    {
        let r = Guess {
            value: self.value.clone(),
            source: self.source.clone(),
            confidence: self.confidence,
        };
        r
    }
}

/// A service that some protocol saw on a device.
#[derive(Debug, PartialEq, Eq)]
pub struct ServiceEvidence {
    pub name: String,
    pub source: String,
    pub port: Option<u16>,
    pub confidence: Confidence,
}

/// The mathematical content of a [`ServiceEvidence`].
#[verifier::ext_equal]
pub struct ServiceEvidenceView {
    pub name: Seq<char>,
    pub source: Seq<char>,
    pub port: Option<u16>,
    pub confidence: Confidence,
}

impl View for ServiceEvidence {
    type V = ServiceEvidenceView;

    open spec fn view(&self) -> ServiceEvidenceView {
        ServiceEvidenceView {
            name: self.name@,
            source: self.source@,
            port: self.port,
            confidence: self.confidence,
        }
    }
}

impl DeepView for ServiceEvidence {
    type V = ServiceEvidenceView;

    open spec fn deep_view(&self) -> ServiceEvidenceView {
        self@
    }
}

impl Clone for ServiceEvidence {
    fn clone(&self) -> (r: Self)
        ensures
            r@ == self@,
    {
        let r = ServiceEvidence {
            name: self.name.clone(),
            source: self.source.clone(),
            port: self.port,
            confidence: self.confidence,
        };
        r
    }
}

/// A raw fact that some protocol reported of a device.
#[derive(Debug, PartialEq, Eq)]
pub struct Evidence {
    pub source: String,
    pub key: String,
    pub value: String,
    pub confidence: Confidence,
}

/// The mathematical content of a [`Evidence`].
#[verifier::ext_equal]
pub struct EvidenceView {
    pub source: Seq<char>,
    pub key: Seq<char>,
    pub value: Seq<char>,
    pub confidence: Confidence,
}

impl View for Evidence {
    type V = EvidenceView;

    open spec fn view(&self) -> EvidenceView {
        EvidenceView {
            source: self.source@,
            key: self.key@,
            value: self.value@,
            confidence: self.confidence,
        }
    }
}

impl DeepView for Evidence {
    type V = EvidenceView;

    open spec fn deep_view(&self) -> EvidenceView {
        self@
    }
}

impl Clone for Evidence {
    fn clone(&self) -> (r: Self)
        ensures
            r@ == self@,
    {
        let r = Evidence {
            source: self.source.clone(),
            key: self.key.clone(),
            value: self.value.clone(),
            confidence: self.confidence,
        };
        r
    }
}

/// Everything known of one device.
#[derive(Debug, PartialEq, Eq)]
pub struct Device {
    pub interface: Option<String>,
    pub ip: IpAddr,
    pub mac: Option<String>,
    pub vendor: Option<String>,
    pub hostname: Option<String>,
    pub names: Vec<NameEvidence>,
    pub make: Option<Guess>,
    pub model: Option<Guess>,
    pub os: Option<Guess>,
    pub device_type: Option<Guess>,
    pub services: Vec<ServiceEvidence>,
    pub evidence: Vec<Evidence>,
    pub first_seen: Timestamp,
    pub last_seen: Timestamp,
}

/// The mathematical content of a [`Device`].
#[verifier::ext_equal]
pub struct DeviceView {
    pub interface: Option<Seq<char>>,
    pub ip: IpAddr,
    pub mac: Option<Seq<char>>,
    pub vendor: Option<Seq<char>>,
    pub hostname: Option<Seq<char>>,
    pub names: Seq<NameEvidenceView>,
    pub make: Option<GuessView>,
    pub model: Option<GuessView>,
    pub os: Option<GuessView>,
    pub device_type: Option<GuessView>,
    pub services: Seq<ServiceEvidenceView>,
    pub evidence: Seq<EvidenceView>,
    pub first_seen: Timestamp,
    pub last_seen: Timestamp,
}

impl View for Device {
    type V = DeviceView;

    open spec fn view(&self) -> DeviceView {
        DeviceView {
            interface: self.interface.deep_view(),
            ip: self.ip,
            mac: self.mac.deep_view(),
            vendor: self.vendor.deep_view(),
            hostname: self.hostname.deep_view(),
            names: self.names.deep_view(),
            make: self.make.deep_view(),
            model: self.model.deep_view(),
            os: self.os.deep_view(),
            device_type: self.device_type.deep_view(),
            services: self.services.deep_view(),
            evidence: self.evidence.deep_view(),
            first_seen: self.first_seen,
            last_seen: self.last_seen,
        }
    }
}

impl DeepView for Device {
    type V = DeviceView;

    open spec fn deep_view(&self) -> DeviceView {
        self@
    }
}

impl Clone for Device {
    fn clone(&self) -> (r: Self)
        ensures
            r@ == self@,
    {
        let r = Device {
            interface: self.interface.clone(),
            ip: self.ip,
            mac: self.mac.clone(),
            vendor: self.vendor.clone(),
            hostname: self.hostname.clone(),
            names: self.names.clone(),
            make: self.make.clone(),
            model: self.model.clone(),
            os: self.os.clone(),
            device_type: self.device_type.clone(),
            services: self.services.clone(),
            evidence: self.evidence.clone(),
            first_seen: self.first_seen,
            last_seen: self.last_seen,
        };
        proof {
            assert(r.interface.deep_view() =~= self.interface.deep_view());
            assert(r.mac.deep_view() =~= self.mac.deep_view());
            assert(r.vendor.deep_view() =~= self.vendor.deep_view());
            assert(r.hostname.deep_view() =~= self.hostname.deep_view());
            assert(r.names.deep_view() =~= self.names.deep_view());
            assert(r.make.deep_view() =~= self.make.deep_view());
            assert(r.model.deep_view() =~= self.model.deep_view());
            assert(r.os.deep_view() =~= self.os.deep_view());
            assert(r.device_type.deep_view() =~= self.device_type.deep_view());
            assert(r.services.deep_view() =~= self.services.deep_view());
            assert(r.evidence.deep_view() =~= self.evidence.deep_view());
        }
        r
    }
}

/// The outcome of one scan.
#[derive(Debug, PartialEq, Eq)]
pub struct ScanResult {
    pub target: String,
    pub interface: String,
    pub scanned_at: Timestamp,
    pub devices: Vec<Device>,
    pub warnings: Vec<String>,
}

/// The mathematical content of a [`ScanResult`].
#[verifier::ext_equal]
pub struct ScanResultView {
    pub target: Seq<char>,
    pub interface: Seq<char>,
    pub scanned_at: Timestamp,
    pub devices: Seq<DeviceView>,
    pub warnings: Seq<Seq<char>>,
}

impl View for ScanResult {
    type V = ScanResultView;

    open spec fn view(&self) -> ScanResultView {
        ScanResultView {
            target: self.target@,
            interface: self.interface@,
            scanned_at: self.scanned_at,
            devices: self.devices.deep_view(),
            warnings: self.warnings.deep_view(),
        }
    }
}

impl DeepView for ScanResult {
    type V = ScanResultView;

    open spec fn deep_view(&self) -> ScanResultView {
        self@
    }
}

impl Clone for ScanResult {
    fn clone(&self) -> (r: Self)
        ensures
            r@ == self@,
    {
        let r = ScanResult {
            target: self.target.clone(),
            interface: self.interface.clone(),
            scanned_at: self.scanned_at,
            devices: self.devices.clone(),
            warnings: self.warnings.clone(),
        };
        proof {
            assert(r.devices.deep_view() =~= self.devices.deep_view());
            assert(r.warnings.deep_view() =~= self.warnings.deep_view());
        }
        r
    }
}

/// The compact host label of a name: without surrounding white space, trailing
/// dots, and trailing `.local` and `.lan` suffixes.
pub open spec fn normalize_name_spec(name: Seq<char>) -> Seq<char> {
    text::trim_end_text_spec(
        text::trim_end_text_spec(text::trim_end_char_spec(text::trim_spec(name), '.'), ".local"@),
        ".lan"@,
    )
}

/// Reduces a name to its compact host label.
///
/// Most local discovery protocols return FQDN-like names. Storing the compact
/// label keeps table search and cache continuity independent of suffixes.
pub fn normalize_name(name: &str) -> (r: String)
    ensures
        r@ == normalize_name_spec(name@),
{
    let c = chars(name);
    text(trim_end_text(trim_end_text(trim_end_char(trim(c.as_slice()), '.'), ".local"), ".lan"))
}

/// The text holds nothing but white space.
pub open spec fn blank(s: Seq<char>) -> bool {
    text::trim_spec(s).len() == 0
}

/// Reports whether a text holds nothing but white space.
pub fn is_blank(s: &str) -> (r: bool)
    ensures
        r == blank(s@),
{
    trim(chars(s).as_slice()).len() == 0
}

/// A guess after one more candidate: a blank value is ignored, and a held guess
/// gives way only to a strictly more confident one.
pub open spec fn best_guess(
    slot: Option<GuessView>,
    value: Seq<char>,
    source: Seq<char>,
    confidence: Confidence,
) -> Option<GuessView> {
    if blank(value) {
        slot
    } else {
        match slot {
            Some(held) if held.confidence >= confidence => slot,
            _ => Some(GuessView { value, source, confidence }),
        }
    }
}

/// A later guess keeps an earlier one: it is at least as confident, and the same
/// guess where it is just as confident.
pub open spec fn guess_kept(before: Option<GuessView>, after: Option<GuessView>) -> bool {
    before matches Some(b) ==> (after matches Some(a) && a.confidence >= b.confidence && (
    a.confidence == b.confidence ==> a == b))
}

/// A held guess is at least as confident as another one that is not blank.
pub open spec fn guess_reached(other: Option<GuessView>, held: Option<GuessView>) -> bool {
    other matches Some(o) ==> (blank(o.value) || (held matches Some(h) && h.confidence
        >= o.confidence))
}

/// The number of bytes of a text in UTF-8.
pub open spec fn byte_length(s: Seq<char>) -> usize {
    vstd::utf8::encode_utf8(s).len() as usize
}

/// The name evidence `held` stays ahead of `next`: it is more confident, or just
/// as confident and shorter.
pub open spec fn name_ahead(held: NameEvidenceView, next: NameEvidenceView) -> bool {
    held.confidence > next.confidence || (held.confidence == next.confidence && byte_length(
        held.name,
    ) < byte_length(next.name))
}

/// The strongest name: the most confident, of these the shortest, of these the
/// last.
pub open spec fn strongest(names: Seq<NameEvidenceView>) -> Option<NameEvidenceView>
    decreases names.len(),
{
    if names.len() == 0 {
        None
    } else {
        match strongest(names.drop_last()) {
            Some(held) if name_ahead(held, names.last()) => Some(held),
            _ => Some(names.last()),
        }
    }
}

/// The label that a list of names gives to a row.
pub open spec fn strongest_name(names: Seq<NameEvidenceView>) -> Option<Seq<char>> {
    match strongest(names) {
        Some(n) => Some(n.name),
        None => None,
    }
}

/// The highest of a list of confidences, or zero.
pub open spec fn max_confidence(s: Seq<Confidence>) -> Confidence
    decreases s.len(),
{
    if s.len() == 0 {
        0
    } else {
        let rest = max_confidence(s.drop_last());
        if s.last() > rest {
            s.last()
        } else {
            rest
        }
    }
}

/// The larger of two confidences.
pub open spec fn larger(a: Confidence, b: Confidence) -> Confidence {
    if b > a {
        b
    } else {
        a
    }
}

/// The confidence of an optional guess, or zero.
pub open spec fn guess_confidence(g: Option<GuessView>) -> Confidence {
    match g {
        Some(g) => g.confidence,
        None => 0,
    }
}

impl DeviceView {
    /// A device of which only the address is known.
    pub open spec fn new(ip: IpAddr, now: Timestamp) -> DeviceView {
        DeviceView {
            interface: None,
            ip,
            mac: None,
            vendor: None,
            hostname: None,
            names: seq![],
            make: None,
            model: None,
            os: None,
            device_type: None,
            services: seq![],
            evidence: seq![],
            first_seen: now,
            last_seen: now,
        }
    }

    /// The source already reported this name, up to the case of ASCII letters.
    pub open spec fn knows_name(self, name: Seq<char>, source: Seq<char>) -> bool {
        exists|i: int|
            0 <= i < self.names.len() && text::lower_spec((#[trigger] self.names[i]).name) == text::lower_spec(
                name,
            ) && self.names[i].source == source
    }

    /// The device after a source reported a name.
    #[verifier::opaque]
    pub open spec fn add_name(
        self,
        name: Seq<char>,
        source: Seq<char>,
        confidence: Confidence,
    ) -> DeviceView {
        let label = normalize_name_spec(name);
        if label.len() == 0 {
            self
        } else {
            let names = if self.knows_name(label, source) {
                self.names
            } else {
                self.names.push(NameEvidenceView { name: label, source, confidence })
            };
            DeviceView { names, hostname: strongest_name(names), ..self }
        }
    }

    /// The source already reported this fact.
    pub open spec fn knows_evidence(
        self,
        source: Seq<char>,
        key: Seq<char>,
        value: Seq<char>,
    ) -> bool {
        exists|i: int|
            0 <= i < self.evidence.len() && (#[trigger] self.evidence[i]).source == source
                && self.evidence[i].key == key && self.evidence[i].value == value
    }

    /// The device after a source reported a fact.
    #[verifier::opaque]
    pub open spec fn add_evidence(
        self,
        source: Seq<char>,
        key: Seq<char>,
        value: Seq<char>,
        confidence: Confidence,
    ) -> DeviceView {
        if blank(value) || self.knows_evidence(source, key, value) {
            self
        } else {
            DeviceView {
                evidence: self.evidence.push(EvidenceView { source, key, value, confidence }),
                ..self
            }
        }
    }

    /// The source already reported this service on this port.
    pub open spec fn knows_service(
        self,
        name: Seq<char>,
        source: Seq<char>,
        port: Option<u16>,
    ) -> bool {
        exists|i: int|
            0 <= i < self.services.len() && (#[trigger] self.services[i]).name == name
                && self.services[i].source == source && self.services[i].port == port
    }

    /// The device after a source reported a service.
    #[verifier::opaque]
    pub open spec fn add_service(
        self,
        name: Seq<char>,
        source: Seq<char>,
        port: Option<u16>,
        confidence: Confidence,
    ) -> DeviceView {
        if blank(name) || self.knows_service(name, source, port) {
            self
        } else {
            DeviceView {
                services: self.services.push(
                    ServiceEvidenceView { name, source, port, confidence },
                ),
                ..self
            }
        }
    }

    /// The device after one more candidate for its maker.
    #[verifier::opaque]
    pub open spec fn set_make(
        self,
        value: Seq<char>,
        source: Seq<char>,
        confidence: Confidence,
    ) -> DeviceView {
        DeviceView { make: best_guess(self.make, value, source, confidence), ..self }
    }

    /// The device after one more candidate for its model.
    #[verifier::opaque]
    pub open spec fn set_model(
        self,
        value: Seq<char>,
        source: Seq<char>,
        confidence: Confidence,
    ) -> DeviceView {
        DeviceView { model: best_guess(self.model, value, source, confidence), ..self }
    }

    /// The device after one more candidate for its operating system.
    #[verifier::opaque]
    pub open spec fn set_os(
        self,
        value: Seq<char>,
        source: Seq<char>,
        confidence: Confidence,
    ) -> DeviceView {
        DeviceView { os: best_guess(self.os, value, source, confidence), ..self }
    }

    /// The device after one more candidate for its type.
    #[verifier::opaque]
    pub open spec fn set_device_type(
        self,
        value: Seq<char>,
        source: Seq<char>,
        confidence: Confidence,
    ) -> DeviceView {
        DeviceView { device_type: best_guess(self.device_type, value, source, confidence), ..self }
    }

    /// `after` holds everything that `self` holds: the same place and times, every raw
    /// fact in its place, every scalar that was known, some label where there was one,
    /// and guesses that are at least as confident.
    #[verifier::opaque]
    pub open spec fn extended_by(self, after: DeviceView) -> bool {
        &&& after.ip == self.ip
        &&& self.names.is_prefix_of(after.names)
        &&& self.services.is_prefix_of(after.services)
        &&& self.evidence.is_prefix_of(after.evidence)
        &&& after.interface == self.interface
        &&& after.first_seen == self.first_seen
        &&& after.last_seen == self.last_seen
        &&& self.mac is Some ==> after.mac == self.mac
        &&& self.vendor is Some ==> after.vendor == self.vendor
        &&& self.hostname is Some ==> after.hostname is Some
        &&& guess_kept(self.make, after.make)
        &&& guess_kept(self.model, after.model)
        &&& guess_kept(self.os, after.os)
        &&& guess_kept(self.device_type, after.device_type)
    }

    /// The device holds what another record says: every name, service, and fact of it
    /// that is not blank, from the same source; guesses that are at least as confident;
    /// and some MAC address and vendor where the record has them.
    pub open spec fn holds(self, other: DeviceView) -> bool {
        &&& forall|i: int|
            0 <= i < other.names.len() && normalize_name_spec(
                (#[trigger] other.names[i]).name,
            ).len() > 0 ==> self.knows_name(
                normalize_name_spec(other.names[i].name),
                other.names[i].source,
            )
        &&& forall|i: int|
            0 <= i < other.services.len() && !blank((#[trigger] other.services[i]).name)
                ==> self.knows_service(
                other.services[i].name,
                other.services[i].source,
                other.services[i].port,
            )
        &&& forall|i: int|
            0 <= i < other.evidence.len() && !blank((#[trigger] other.evidence[i]).value)
                ==> self.knows_evidence(
                other.evidence[i].source,
                other.evidence[i].key,
                other.evidence[i].value,
            )
        &&& guess_reached(other.make, self.make)
        &&& guess_reached(other.model, self.model)
        &&& guess_reached(other.os, self.os)
        &&& guess_reached(other.device_type, self.device_type)
        &&& other.mac is Some ==> self.mac is Some
        &&& other.vendor is Some ==> self.vendor is Some
    }

    /// The strongest signal behind the identity of the device, at most 100.
    pub open spec fn identity_confidence(self) -> Confidence {
        let names = max_confidence(self.names.map_values(|n: NameEvidenceView| n.confidence));
        let guesses = larger(
            larger(guess_confidence(self.make), guess_confidence(self.model)),
            larger(guess_confidence(self.os), guess_confidence(self.device_type)),
        );
        let services = max_confidence(
            self.services.map_values(|s: ServiceEvidenceView| s.confidence),
        );
        let evidence = max_confidence(self.evidence.map_values(|e: EvidenceView| e.confidence));
        let vendor: Confidence = if self.vendor is Some {
            55
        } else {
            0
        };
        let mac: Confidence = if self.mac is Some {
            50
        } else {
            0
        };
        let best = larger(
            larger(larger(names, guesses), larger(services, evidence)),
            larger(vendor, mac),
        );
        if best > 100 {
            100
        } else {
            best
        }
    }
}

/// A device extends itself.
pub broadcast proof fn lemma_extended_refl(d: DeviceView)
    ensures
        #[trigger] d.extended_by(d),
{
    reveal(DeviceView::extended_by);
}

/// Extension is transitive.
pub broadcast proof fn lemma_extended_trans(a: DeviceView, b: DeviceView, c: DeviceView)
    requires
        #[trigger] a.extended_by(b),
        #[trigger] b.extended_by(c),
    ensures
        a.extended_by(c),
{
    reveal(DeviceView::extended_by);
    assert(a.names =~= c.names.take(a.names.len() as int)) by {
        assert(a.names =~= b.names.take(a.names.len() as int));
    }
    assert(a.services =~= c.services.take(a.services.len() as int)) by {
        assert(a.services =~= b.services.take(a.services.len() as int));
    }
    assert(a.evidence =~= c.evidence.take(a.evidence.len() as int)) by {
        assert(a.evidence =~= b.evidence.take(a.evidence.len() as int));
    }
}

/// What a device knows, its extensions know.
pub proof fn lemma_extension_knows(a: DeviceView, b: DeviceView)
    requires
        a.extended_by(b),
    ensures
        forall|name: Seq<char>, source: Seq<char>| #[trigger]
            a.knows_name(name, source) ==> b.knows_name(name, source),
        forall|name: Seq<char>, source: Seq<char>, port: Option<u16>| #[trigger]
            a.knows_service(name, source, port) ==> b.knows_service(name, source, port),
        forall|source: Seq<char>, key: Seq<char>, value: Seq<char>| #[trigger]
            a.knows_evidence(source, key, value) ==> b.knows_evidence(source, key, value),
{
    reveal(DeviceView::extended_by);
    assert forall|name: Seq<char>, source: Seq<char>| #[trigger]
        a.knows_name(name, source) implies b.knows_name(name, source) by {
        let i = choose|i: int|
            0 <= i < a.names.len() && text::lower_spec((#[trigger] a.names[i]).name)
                == text::lower_spec(name) && a.names[i].source == source;
        assert(b.names[i] == a.names[i]);
    }
    assert forall|name: Seq<char>, source: Seq<char>, port: Option<u16>| #[trigger]
        a.knows_service(name, source, port) implies b.knows_service(name, source, port) by {
        let i = choose|i: int|
            0 <= i < a.services.len() && (#[trigger] a.services[i]).name == name
                && a.services[i].source == source && a.services[i].port == port;
        assert(b.services[i] == a.services[i]);
    }
    assert forall|source: Seq<char>, key: Seq<char>, value: Seq<char>| #[trigger]
        a.knows_evidence(source, key, value) implies b.knows_evidence(source, key, value) by {
        let i = choose|i: int|
            0 <= i < a.evidence.len() && (#[trigger] a.evidence[i]).source == source
                && a.evidence[i].key == key && a.evidence[i].value == value;
        assert(b.evidence[i] == a.evidence[i]);
    }
}

/// What a device holds of a record, its extensions hold.
pub proof fn lemma_extension_holds(a: DeviceView, b: DeviceView, other: DeviceView)
    requires
        a.extended_by(b),
        a.holds(other),
    ensures
        b.holds(other),
{
    lemma_extension_knows(a, b);
    reveal(DeviceView::extended_by);
}

/// Replaces a guess by a strictly more confident one.
fn set_best_guess(slot: &mut Option<Guess>, value: &str, source: &str, confidence: Confidence)
    ensures
        final(slot).deep_view() == best_guess(old(slot).deep_view(), value@, source@, confidence),
        guess_kept(old(slot).deep_view(), final(slot).deep_view()),
{
    if is_blank(value) {
        return;
    }
    let replace = match slot {
        Some(held) => confidence > held.confidence,
        None => true,
    };
    if replace {
        *slot = Some(Guess { value: owned(value), source: owned(source), confidence });
    }
}

impl Device {
    /// A device of which only the address is known.
    pub fn new(ip: IpAddr, now: Timestamp) -> (r: Self)
        ensures
            r@ == DeviceView::new(ip, now),
    {
        let r = Device {
            interface: None,
            ip,
            mac: None,
            vendor: None,
            hostname: None,
            names: Vec::new(),
            make: None,
            model: None,
            os: None,
            device_type: None,
            services: Vec::new(),
            evidence: Vec::new(),
            first_seen: now,
            last_seen: now,
        };
        proof {
            assert(r.names.deep_view() =~= seq![]);
            assert(r.services.deep_view() =~= seq![]);
            assert(r.evidence.deep_view() =~= seq![]);
        }
        r
    }

    /// Recomputes the row label from the names.
    fn refresh_hostname(&mut self)
        ensures
            final(self)@ == (DeviceView {
                hostname: strongest_name(old(self)@.names),
                ..old(self)@
            }),
    {
        let mut best: Option<usize> = None;
        let mut i: usize = 0;
        let ghost views = self.names.deep_view();
        while i < self.names.len()
            invariant
                i <= self.names@.len(),
                views == self.names.deep_view(),
                self@ == old(self)@,
                match best {
                    Some(b) => b < i && strongest(views.take(i as int)) == Some(views[b as int]),
                    None => i == 0,
                },
            decreases self.names@.len() - i,
        {
            proof {
                assert(views.take(i + 1).drop_last() =~= views.take(i as int));
            }
            let keep = match best {
                Some(b) => {
                    let held = &self.names[b];
                    let next = &self.names[i];
                    held.confidence > next.confidence || (held.confidence == next.confidence
                        && held.name.as_str().len() < next.name.as_str().len())
                },
                None => false,
            };
            if !keep {
                best = Some(i);
            }
            i = i + 1;
        }
        proof {
            assert(views.take(i as int) =~= views);
        }
        self.hostname = match best {
            Some(b) => Some(self.names[b].name.clone()),
            None => None,
        };
    }

    /// Records a name that a source reported.
    ///
    /// Per-source duplicates stay out of the model while the same name from
    /// independent protocols is kept: cross-source agreement is useful evidence,
    /// repeated packets from one protocol are just noise.
    pub fn add_name(&mut self, name: &str, source: &str, confidence: Confidence)
        ensures
            final(self)@ == old(self)@.add_name(name@, source@, confidence),
            old(self)@.extended_by(final(self)@),
    {
        proof {
            reveal(DeviceView::add_name);
            reveal(DeviceView::extended_by);
        }
        let name = normalize_name(name);
        if name.as_str().is_empty() {
            return;
        }
        let wanted = chars(name.as_str());
        let mut known = false;
        let mut i: usize = 0;
        let ghost views = self.names.deep_view();
        while i < self.names.len()
            invariant
                i <= self.names@.len(),
                *self == *old(self),
                views == self.names.deep_view(),
                wanted@ == name@,
                known == (exists|j: int|
                    0 <= j < i && text::lower_spec((#[trigger] views[j]).name) == text::lower_spec(name@)
                        && views[j].source == source@),
            decreases self.names@.len() - i,
        {
            let item = &self.names[i];
            proof {
                assert(views[i as int] == item@);
            }
            if same_ignoring_case(chars(item.name.as_str()).as_slice(), wanted.as_slice())
                && str_eq(item.source.as_str(), source) {
                known = true;
            }
            i = i + 1;
        }
        if !known {
            self.names.push(NameEvidence { name, source: owned(source), confidence });
            proof {
                assert(self.names.deep_view() =~= views.push(
                    NameEvidenceView { name: name@, source: source@, confidence },
                ));
            }
        }
        self.refresh_hostname();
    }

    /// Records a raw fact that a source reported.
    pub fn add_evidence(&mut self, source: &str, key: &str, value: &str, confidence: Confidence)
        ensures
            final(self)@ == old(self)@.add_evidence(source@, key@, value@, confidence),
            old(self)@.extended_by(final(self)@),
    {
        proof {
            reveal(DeviceView::add_evidence);
            reveal(DeviceView::extended_by);
        }
        if is_blank(value) {
            return;
        }
        let ghost views = self.evidence.deep_view();
        let mut i: usize = 0;
        while i < self.evidence.len()
            invariant
                i <= self.evidence@.len(),
                *self == *old(self),
                views == self.evidence.deep_view(),
                forall|j: int|
                    0 <= j < i ==> !((#[trigger] views[j]).source == source@ && views[j].key == key@
                        && views[j].value == value@),
                old(self)@.extended_by(old(self)@),
                !blank(value@),
            decreases self.evidence@.len() - i,
        {
            let item = &self.evidence[i];
            proof {
                assert(views[i as int] == item@);
            }
            if str_eq(item.source.as_str(), source) && str_eq(item.key.as_str(), key) && str_eq(
                item.value.as_str(),
                value,
            ) {
                proof {
                    reveal(DeviceView::add_evidence);
                    assert(old(self)@.knows_evidence(source@, key@, value@));
                }
                return;
            }
            i = i + 1;
        }
        self.evidence.push(
            Evidence {
                source: owned(source),
                key: owned(key),
                value: owned(value),
                confidence,
            },
        );
        proof {
            assert(self.evidence.deep_view() =~= views.push(
                EvidenceView { source: source@, key: key@, value: value@, confidence },
            ));
        }
    }

    /// Records a service that a source reported.
    pub fn add_service(
        &mut self,
        name: &str,
        source: &str,
        port: Option<u16>,
        confidence: Confidence,
    )
        ensures
            final(self)@ == old(self)@.add_service(name@, source@, port, confidence),
            old(self)@.extended_by(final(self)@),
    {
        proof {
            reveal(DeviceView::add_service);
            reveal(DeviceView::extended_by);
        }
        if is_blank(name) {
            return;
        }
        let ghost views = self.services.deep_view();
        let mut i: usize = 0;
        while i < self.services.len()
            invariant
                i <= self.services@.len(),
                *self == *old(self),
                views == self.services.deep_view(),
                forall|j: int|
                    0 <= j < i ==> !((#[trigger] views[j]).name == name@ && views[j].source
                        == source@ && views[j].port == port),
                old(self)@.extended_by(old(self)@),
                !blank(name@),
            decreases self.services@.len() - i,
        {
            let item = &self.services[i];
            proof {
                assert(views[i as int] == item@);
            }
            if str_eq(item.name.as_str(), name) && str_eq(item.source.as_str(), source) && item.port
                == port {
                proof {
                    reveal(DeviceView::add_service);
                    assert(old(self)@.knows_service(name@, source@, port));
                }
                return;
            }
            i = i + 1;
        }
        self.services.push(
            ServiceEvidence { name: owned(name), source: owned(source), port, confidence },
        );
        proof {
            assert(self.services.deep_view() =~= views.push(
                ServiceEvidenceView { name: name@, source: source@, port, confidence },
            ));
        }
    }

    /// Offers a candidate for the maker.
    pub fn set_make_guess(&mut self, value: &str, source: &str, confidence: Confidence)
        ensures
            final(self)@ == old(self)@.set_make(value@, source@, confidence),
            old(self)@.extended_by(final(self)@),
    {
        proof {
            reveal(DeviceView::set_make);
            reveal(DeviceView::extended_by);
        }
        set_best_guess(&mut self.make, value, source, confidence);
    }

    /// Offers a candidate for the model.
    pub fn set_model_guess(&mut self, value: &str, source: &str, confidence: Confidence)
        ensures
            final(self)@ == old(self)@.set_model(value@, source@, confidence),
            old(self)@.extended_by(final(self)@),
    {
        proof {
            reveal(DeviceView::set_model);
            reveal(DeviceView::extended_by);
        }
        set_best_guess(&mut self.model, value, source, confidence);
    }

    /// Offers a candidate for the operating system.
    pub fn set_os_guess(&mut self, value: &str, source: &str, confidence: Confidence)
        ensures
            final(self)@ == old(self)@.set_os(value@, source@, confidence),
            old(self)@.extended_by(final(self)@),
    {
        proof {
            reveal(DeviceView::set_os);
            reveal(DeviceView::extended_by);
        }
        set_best_guess(&mut self.os, value, source, confidence);
    }

    /// Offers a candidate for the device type.
    pub fn set_device_type_guess(&mut self, value: &str, source: &str, confidence: Confidence)
        ensures
            final(self)@ == old(self)@.set_device_type(value@, source@, confidence),
            old(self)@.extended_by(final(self)@),
    {
        proof {
            reveal(DeviceView::set_device_type);
            reveal(DeviceView::extended_by);
        }
        set_best_guess(&mut self.device_type, value, source, confidence);
    }

    /// The strongest signal behind the identity of the device.
    pub fn identity_confidence(&self) -> (r: Confidence)
        ensures
            r == self@.identity_confidence(),
    {
        let mut names: Confidence = 0;
        let mut i: usize = 0;
        let ghost name_levels = self@.names.map_values(|n: NameEvidenceView| n.confidence);
        while i < self.names.len()
            invariant
                i <= self.names@.len(),
                name_levels == self@.names.map_values(|n: NameEvidenceView| n.confidence),
                names == max_confidence(name_levels.take(i as int)),
            decreases self.names@.len() - i,
        {
            proof {
                assert(name_levels.take(i + 1).drop_last() =~= name_levels.take(i as int));
            }
            names = max_of(names, self.names[i].confidence);
            i = i + 1;
        }
        proof {
            assert(name_levels.take(i as int) =~= name_levels);
        }
        let mut services: Confidence = 0;
        i = 0;
        let ghost service_levels = self@.services.map_values(
            |s: ServiceEvidenceView| s.confidence,
        );
        while i < self.services.len()
            invariant
                i <= self.services@.len(),
                service_levels == self@.services.map_values(|s: ServiceEvidenceView| s.confidence),
                services == max_confidence(service_levels.take(i as int)),
            decreases self.services@.len() - i,
        {
            proof {
                assert(service_levels.take(i + 1).drop_last() =~= service_levels.take(i as int));
            }
            services = max_of(services, self.services[i].confidence);
            i = i + 1;
        }
        proof {
            assert(service_levels.take(i as int) =~= service_levels);
        }
        let mut evidence: Confidence = 0;
        i = 0;
        let ghost evidence_levels = self@.evidence.map_values(|e: EvidenceView| e.confidence);
        while i < self.evidence.len()
            invariant
                i <= self.evidence@.len(),
                evidence_levels == self@.evidence.map_values(|e: EvidenceView| e.confidence),
                evidence == max_confidence(evidence_levels.take(i as int)),
            decreases self.evidence@.len() - i,
        {
            proof {
                assert(evidence_levels.take(i + 1).drop_last() =~= evidence_levels.take(i as int));
            }
            evidence = max_of(evidence, self.evidence[i].confidence);
            i = i + 1;
        }
        proof {
            assert(evidence_levels.take(i as int) =~= evidence_levels);
        }
        let guesses: Confidence = max_of(
            max_of(guess_level(&self.make), guess_level(&self.model)),
            max_of(guess_level(&self.os), guess_level(&self.device_type)),
        );
        let vendor: Confidence = if self.vendor.is_some() {
            55
        } else {
            0
        };
        let mac: Confidence = if self.mac.is_some() {
            50
        } else {
            0
        };
        let best: Confidence = max_of(
            max_of(max_of(names, guesses), max_of(services, evidence)),
            max_of(vendor, mac),
        );
        if best > 100 {
            100
        } else {
            best
        }
    }
}

/// The larger of two confidences.
fn max_of(a: Confidence, b: Confidence) -> (r: Confidence)
    ensures
        r == larger(a, b),
{
    if b > a {
        b
    } else {
        a
    }
}

/// The confidence of an optional guess, or zero.
fn guess_level(g: &Option<Guess>) -> (r: Confidence)
    ensures
        r == guess_confidence(g.deep_view()),
{
    match g {
        Some(g) => g.confidence,
        None => 0,
    }
}

/// No report and no candidate takes anything away from a device.
pub proof fn law_reports_erase_nothing(
    d: DeviceView,
    source: Seq<char>,
    key: Seq<char>,
    value: Seq<char>,
    port: Option<u16>,
    confidence: Confidence,
)
    ensures
        d.extended_by(d.add_name(value, source, confidence)),
        d.extended_by(d.add_evidence(source, key, value, confidence)),
        d.extended_by(d.add_service(value, source, port, confidence)),
        d.extended_by(d.set_make(value, source, confidence)),
        d.extended_by(d.set_model(value, source, confidence)),
        d.extended_by(d.set_os(value, source, confidence)),
        d.extended_by(d.set_device_type(value, source, confidence)),
{
    reveal(DeviceView::extended_by);
    reveal(DeviceView::add_name);
    reveal(DeviceView::add_evidence);
    reveal(DeviceView::add_service);
    reveal(DeviceView::set_make);
    reveal(DeviceView::set_model);
    reveal(DeviceView::set_os);
    reveal(DeviceView::set_device_type);
}

/// A report that is not blank is known afterwards, and a candidate that is not blank
/// is reached by the guess.
pub proof fn law_reports_are_held(
    d: DeviceView,
    source: Seq<char>,
    key: Seq<char>,
    value: Seq<char>,
    port: Option<u16>,
    confidence: Confidence,
)
    ensures
        normalize_name_spec(value).len() > 0 ==> d.add_name(value, source, confidence).knows_name(
            normalize_name_spec(value),
            source,
        ),
        !blank(value) ==> d.add_evidence(source, key, value, confidence).knows_evidence(
            source,
            key,
            value,
        ),
        !blank(value) ==> d.add_service(value, source, port, confidence).knows_service(
            value,
            source,
            port,
        ),
        ({
            let candidate = Some(GuessView { value, source, confidence });
            &&& guess_reached(candidate, d.set_make(value, source, confidence).make)
            &&& guess_reached(candidate, d.set_model(value, source, confidence).model)
            &&& guess_reached(candidate, d.set_os(value, source, confidence).os)
            &&& guess_reached(candidate, d.set_device_type(value, source, confidence).device_type)
        }),
{
    reveal(DeviceView::add_name);
    reveal(DeviceView::add_evidence);
    reveal(DeviceView::add_service);
    reveal(DeviceView::set_make);
    reveal(DeviceView::set_model);
    reveal(DeviceView::set_os);
    reveal(DeviceView::set_device_type);
    let label = normalize_name_spec(value);
    let n = d.add_name(value, source, confidence);
    if label.len() > 0 && !d.knows_name(label, source) {
        assert(n.names[d.names.len() as int].name == label);
    }
    let e = d.add_evidence(source, key, value, confidence);
    if !blank(value) && !d.knows_evidence(source, key, value) {
        assert(e.evidence[d.evidence.len() as int].value == value);
    }
    let t = d.add_service(value, source, port, confidence);
    if !blank(value) && !d.knows_service(value, source, port) {
        assert(t.services[d.services.len() as int].name == value);
    }
}

/// No source reported the same name, fact, or service twice.
pub open spec fn without_repeats(d: DeviceView) -> bool {
    &&& forall|i: int, j: int|
        0 <= i < j < d.names.len() ==> !(text::lower_spec((#[trigger] d.names[i]).name) == text::lower_spec(
            (#[trigger] d.names[j]).name,
        ) && d.names[i].source == d.names[j].source)
    &&& forall|i: int, j: int|
        0 <= i < j < d.evidence.len() ==> !((#[trigger] d.evidence[i]).source == (
        #[trigger] d.evidence[j]).source && d.evidence[i].key == d.evidence[j].key
            && d.evidence[i].value == d.evidence[j].value)
    &&& forall|i: int, j: int|
        0 <= i < j < d.services.len() ==> !((#[trigger] d.services[i]).name == (
        #[trigger] d.services[j]).name && d.services[i].source == d.services[j].source
            && d.services[i].port == d.services[j].port)
}

/// A new device has no repeats, and recording a name, a fact, a service, or a
/// guess never makes one.
pub proof fn law_reports_never_repeat(
    d: DeviceView,
    name: Seq<char>,
    source: Seq<char>,
    key: Seq<char>,
    port: Option<u16>,
    confidence: Confidence,
)
    ensures
        without_repeats(DeviceView::new(d.ip, d.first_seen)),
        without_repeats(d) ==> without_repeats(d.add_name(name, source, confidence)),
        without_repeats(d) ==> without_repeats(d.add_evidence(source, key, name, confidence)),
        without_repeats(d) ==> without_repeats(d.add_service(name, source, port, confidence)),
        without_repeats(d) ==> without_repeats(d.set_make(name, source, confidence)),
        without_repeats(d) ==> without_repeats(d.set_model(name, source, confidence)),
        without_repeats(d) ==> without_repeats(d.set_os(name, source, confidence)),
        without_repeats(d) ==> without_repeats(d.set_device_type(name, source, confidence)),
{
    reveal(DeviceView::add_name);
    reveal(DeviceView::add_evidence);
    reveal(DeviceView::add_service);
    reveal(DeviceView::set_make);
    reveal(DeviceView::set_model);
    reveal(DeviceView::set_os);
    reveal(DeviceView::set_device_type);
}

/// A source that reports the same name, fact, or service again changes nothing.
pub proof fn law_second_report_changes_nothing(
    d: DeviceView,
    name: Seq<char>,
    source: Seq<char>,
    key: Seq<char>,
    port: Option<u16>,
    confidence: Confidence,
    again: Confidence,
)
    ensures
        d.add_name(name, source, confidence).add_name(name, source, again) == d.add_name(
            name,
            source,
            confidence,
        ),
        d.add_evidence(source, key, name, confidence).add_evidence(source, key, name, again)
            == d.add_evidence(source, key, name, confidence),
        d.add_service(name, source, port, confidence).add_service(name, source, port, again)
            == d.add_service(name, source, port, confidence),
{
    reveal(DeviceView::add_name);
    reveal(DeviceView::add_evidence);
    reveal(DeviceView::add_service);
    let label = normalize_name_spec(name);
    let n = d.add_name(name, source, confidence);
    if label.len() > 0 && !d.knows_name(label, source) {
        assert(n.names[d.names.len() as int].name == label);
        assert(n.knows_name(label, source));
    }
    let e = d.add_evidence(source, key, name, confidence);
    if !blank(name) && !d.knows_evidence(source, key, name) {
        assert(e.evidence[d.evidence.len() as int].value == name);
        assert(e.knows_evidence(source, key, name));
    }
    let s = d.add_service(name, source, port, confidence);
    if !blank(name) && !d.knows_service(name, source, port) {
        assert(s.services[d.services.len() as int].name == name);
        assert(s.knows_service(name, source, port));
    }
}

/// The strongest name is one of the names; none is more confident, and none that
/// is just as confident is shorter.
pub proof fn law_strongest_name_leads(names: Seq<NameEvidenceView>)
    requires
        names.len() > 0,
    ensures
        strongest(names) matches Some(best) && names.contains(best) && forall|i: int|
            0 <= i < names.len() ==> !name_ahead(#[trigger] names[i], best),
    decreases names.len(),
{
    let rest = names.drop_last();
    if rest.len() > 0 {
        law_strongest_name_leads(rest);
        let held = strongest(rest)->0;
        let k = choose|k: int| 0 <= k < rest.len() && rest[k] == held;
        assert(names[k] == held);
        assert forall|i: int| 0 <= i < names.len() implies !name_ahead(
            #[trigger] names[i],
            strongest(names)->0,
        ) by {
            if i < rest.len() {
                assert(!name_ahead(rest[i], held));
            }
        }
    }
    assert(names.last() == names[names.len() - 1]);
}

/// A guess never loses confidence, and of two guesses that are just as confident
/// the first stays.
pub proof fn law_guess_is_kept(
    slot: Option<GuessView>,
    value: Seq<char>,
    source: Seq<char>,
    confidence: Confidence,
)
    ensures
        guess_kept(slot, best_guess(slot, value, source, confidence)),
        !blank(value) ==> guess_confidence(best_guess(slot, value, source, confidence))
            >= confidence,
{
}

impl Same for NameEvidence {
    fn same(&self, other: &Self) -> (r: bool) {
        self.name == other.name
            && self.source == other.source
            && self.confidence == other.confidence
    }
}

impl Same for Guess {
    fn same(&self, other: &Self) -> (r: bool) {
        self.value == other.value
            && self.source == other.source
            && self.confidence == other.confidence
    }
}

impl Same for ServiceEvidence {
    fn same(&self, other: &Self) -> (r: bool) {
        self.name == other.name
            && self.source == other.source
            && self.port == other.port
            && self.confidence == other.confidence
    }
}

impl Same for Evidence {
    fn same(&self, other: &Self) -> (r: bool) {
        self.source == other.source
            && self.key == other.key
            && self.value == other.value
            && self.confidence == other.confidence
    }
}

impl Same for Device {
    fn same(&self, other: &Self) -> (r: bool) {
        self.interface.same(&other.interface)
            && self.ip == other.ip
            && self.mac.same(&other.mac)
            && self.vendor.same(&other.vendor)
            && self.hostname.same(&other.hostname)
            && self.names.same(&other.names)
            && self.make.same(&other.make)
            && self.model.same(&other.model)
            && self.os.same(&other.os)
            && self.device_type.same(&other.device_type)
            && self.services.same(&other.services)
            && self.evidence.same(&other.evidence)
            && self.first_seen == other.first_seen
            && self.last_seen == other.last_seen
    }
}

} // verus!
