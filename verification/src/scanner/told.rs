//! What the record of each source leaves in a device.
//!
//! For every source there is a law that says, field by field, what a device holds once
//! the record was applied, and that nothing else came in.

use crate::addr;
use crate::dhcp::DhcpLeaseView;
use crate::discovery::cdp::CdpInfoView;
use crate::discovery::lldp::LldpInfoView;
use crate::enrich::mdns::{MdnsInfoView, MdnsServiceView};
use crate::enrich::oui;
use crate::model::{
    Confidence, DeviceView, EvidenceView, GuessView, NameEvidenceView, ServiceEvidenceView,
};
use crate::model;
use crate::probes::deep::{HttpHeaderView, PortProbeView, ProbeOptions};
use crate::probes::deep;
use crate::probes::smb::SmbInfoView;
use crate::probes::snmp::SnmpInfoView;
use crate::probes::upnp::UpnpInfoView;
use crate::probes::upnp;
use crate::scanner::apply;
use crate::text;
use crate::text_map::TextMapView;
use vstd::prelude::*;

verus! {

/// Tests for what may come in.
pub ghost struct Incoming {
    pub name: spec_fn(NameEvidenceView) -> bool,
    pub service: spec_fn(ServiceEvidenceView) -> bool,
    pub fact: spec_fn(EvidenceView) -> bool,
}

/// `after` begins with what `before` holds, and whatever came in passes the tests.
pub open spec fn grew(before: DeviceView, after: DeviceView, incoming: Incoming) -> bool {
    &&& before.names.len() <= after.names.len()
    &&& before.services.len() <= after.services.len()
    &&& before.evidence.len() <= after.evidence.len()
    &&& forall|i: int|
        before.names.len() <= i < after.names.len() ==> (incoming.name)(#[trigger] after.names[i])
    &&& forall|i: int|
        before.services.len() <= i < after.services.len() ==> (incoming.service)(
            #[trigger] after.services[i],
        )
    &&& forall|i: int|
        before.evidence.len() <= i < after.evidence.len() ==> (incoming.fact)(
            #[trigger] after.evidence[i],
        )
}

/// Whatever `a` knows, `b` knows.
pub open spec fn knowing(a: DeviceView, b: DeviceView) -> bool {
    &&& forall|name: Seq<char>, source: Seq<char>| #[trigger]
        a.knows_name(name, source) ==> b.knows_name(name, source)
    &&& forall|name: Seq<char>, source: Seq<char>, port: Option<u16>| #[trigger]
        a.knows_service(name, source, port) ==> b.knows_service(name, source, port)
    &&& forall|source: Seq<char>, key: Seq<char>, value: Seq<char>| #[trigger]
        a.knows_evidence(source, key, value) ==> b.knows_evidence(source, key, value)
}

/// The two agree on their place, their times, their hardware, and their guesses.
pub open spec fn same_guesses(a: DeviceView, b: DeviceView) -> bool {
    a.make == b.make && a.model == b.model && a.os == b.os && a.device_type == b.device_type
}

/// The two agree on their place, their times, and their hardware.
pub open spec fn same_place(a: DeviceView, b: DeviceView) -> bool {
    a.ip == b.ip && a.interface == b.interface && a.first_seen == b.first_seen && a.last_seen
        == b.last_seen && a.mac == b.mac && a.vendor == b.vendor
}

/// A step that only adds to a device.
pub open spec fn step(
    before: DeviceView,
    a: DeviceView,
    b: DeviceView,
    incoming: Incoming,
) -> bool {
    grew(before, b, incoming) && knowing(a, b) && same_place(a, b)
}

/// The device knows a fact, unless it is blank.
pub open spec fn tells(
    d: DeviceView,
    source: Seq<char>,
    key: Seq<char>,
    value: Seq<char>,
) -> bool {
    model::blank(value) || d.knows_evidence(source, key, value)
}

/// The device knows an optional fact, unless it is blank.
pub open spec fn tells_opt(
    d: DeviceView,
    source: Seq<char>,
    key: Seq<char>,
    value: Option<Seq<char>>,
) -> bool {
    value matches Some(v) ==> tells(d, source, key, v)
}

/// The device knows a name, unless nothing is left of it.
pub open spec fn named(d: DeviceView, name: Seq<char>, source: Seq<char>) -> bool {
    model::normalize_name_spec(name).len() == 0 || d.knows_name(
        model::normalize_name_spec(name),
        source,
    )
}

/// The device knows an optional name.
pub open spec fn named_opt(d: DeviceView, name: Option<Seq<char>>, source: Seq<char>) -> bool {
    name matches Some(v) ==> named(d, v, source)
}

/// The fact is an optional value under a key.
pub open spec fn is_fact(
    e: EvidenceView,
    key: Seq<char>,
    value: Option<Seq<char>>,
    confidence: Confidence,
) -> bool {
    e.key == key && value == Some(e.value) && e.confidence == confidence
}

/// The fact is one of several values under a key.
pub open spec fn is_fact_of(
    e: EvidenceView,
    key: Seq<char>,
    values: Seq<Seq<char>>,
    confidence: Confidence,
) -> bool {
    e.key == key && values.contains(e.value) && e.confidence == confidence
}

/// The decimal form of an optional number.
pub open spec fn number(v: Option<nat>) -> Option<Seq<char>> {
    match v {
        Some(n) => Some(text::decimal_spec(n)),
        None => None,
    }
}

/// A guess after one candidate: it has at least the confidence of the candidate, and is
/// the candidate or the guess from before.
pub open spec fn weighed(
    before: Option<GuessView>,
    after: Option<GuessView>,
    value: Seq<char>,
    source: Seq<char>,
    confidence: Confidence,
) -> bool {
    let candidate = Some(GuessView { value, source, confidence });
    &&& after == before || after == candidate
    &&& !model::blank(value) && (before matches Some(b) ==> b.confidence < confidence) ==> after
        == candidate
    &&& (before matches Some(b) && b.confidence >= confidence) ==> after == before
}

/// One more fact.
proof fn step_fact(
    before: DeviceView,
    x: DeviceView,
    source: Seq<char>,
    key: Seq<char>,
    value: Seq<char>,
    confidence: Confidence,
    incoming: Incoming,
)
    requires
        grew(before, x, incoming),
        model::blank(value) || (incoming.fact)(EvidenceView { source, key, value, confidence }),
    ensures
        step(before, x, x.add_evidence(source, key, value, confidence), incoming),
        tells(x.add_evidence(source, key, value, confidence), source, key, value),
        same_guesses(x, x.add_evidence(source, key, value, confidence)),
        x.extended_by(x.add_evidence(source, key, value, confidence)),
{
    model::law_reports_are_held(x, source, key, value, None, confidence);
    model::law_reports_erase_nothing(x, source, key, value, None, confidence);
    model::lemma_extension_knows(x, x.add_evidence(source, key, value, confidence));
    reveal(DeviceView::add_evidence);
}

/// One more fact, where there is one.
proof fn step_opt(
    before: DeviceView,
    x: DeviceView,
    source: Seq<char>,
    key: Seq<char>,
    value: Option<Seq<char>>,
    confidence: Confidence,
    incoming: Incoming,
)
    requires
        grew(before, x, incoming),
        value matches Some(v) ==> (model::blank(v) || (incoming.fact)(
            EvidenceView { source, key, value: v, confidence },
        )),
    ensures
        step(before, x, apply::opt_evidence(x, source, key, value, confidence), incoming),
        tells_opt(apply::opt_evidence(x, source, key, value, confidence), source, key, value),
        same_guesses(x, apply::opt_evidence(x, source, key, value, confidence)),
        x.extended_by(apply::opt_evidence(x, source, key, value, confidence)),
{
    broadcast use crate::model::lemma_extended_refl;

    if let Some(v) = value {
        step_fact(before, x, source, key, v, confidence, incoming);
    }
}

/// One more name.
proof fn step_name(
    before: DeviceView,
    x: DeviceView,
    name: Seq<char>,
    source: Seq<char>,
    confidence: Confidence,
    incoming: Incoming,
)
    requires
        grew(before, x, incoming),
        model::normalize_name_spec(name).len() == 0 || (incoming.name)(
            NameEvidenceView { name: model::normalize_name_spec(name), source, confidence },
        ),
    ensures
        step(before, x, x.add_name(name, source, confidence), incoming),
        named(x.add_name(name, source, confidence), name, source),
        same_guesses(x, x.add_name(name, source, confidence)),
        x.extended_by(x.add_name(name, source, confidence)),
{
    model::law_reports_are_held(x, source, seq![], name, None, confidence);
    model::law_reports_erase_nothing(x, source, seq![], name, None, confidence);
    model::lemma_extension_knows(x, x.add_name(name, source, confidence));
    reveal(DeviceView::add_name);
}

/// One more service.
proof fn step_service(
    before: DeviceView,
    x: DeviceView,
    name: Seq<char>,
    source: Seq<char>,
    port: Option<u16>,
    confidence: Confidence,
    incoming: Incoming,
)
    requires
        grew(before, x, incoming),
        model::blank(name) || (incoming.service)(
            ServiceEvidenceView { name, source, port, confidence },
        ),
    ensures
        step(before, x, x.add_service(name, source, port, confidence), incoming),
        model::blank(name) || x.add_service(name, source, port, confidence).knows_service(
            name,
            source,
            port,
        ),
        same_guesses(x, x.add_service(name, source, port, confidence)),
        x.extended_by(x.add_service(name, source, port, confidence)),
{
    model::law_reports_are_held(x, source, seq![], name, port, confidence);
    model::law_reports_erase_nothing(x, source, seq![], name, port, confidence);
    model::lemma_extension_knows(x, x.add_service(name, source, port, confidence));
    reveal(DeviceView::add_service);
}

/// One more candidate for each guess.
proof fn step_guess(
    before: DeviceView,
    x: DeviceView,
    value: Seq<char>,
    source: Seq<char>,
    confidence: Confidence,
    incoming: Incoming,
)
    requires
        grew(before, x, incoming),
    ensures
        step(before, x, x.set_make(value, source, confidence), incoming),
        step(before, x, x.set_model(value, source, confidence), incoming),
        step(before, x, x.set_os(value, source, confidence), incoming),
        step(before, x, x.set_device_type(value, source, confidence), incoming),
        x.extended_by(x.set_make(value, source, confidence)),
        x.extended_by(x.set_model(value, source, confidence)),
        x.extended_by(x.set_os(value, source, confidence)),
        x.extended_by(x.set_device_type(value, source, confidence)),
        ({
            let y = x.set_make(value, source, confidence);
            weighed(x.make, y.make, value, source, confidence) && y.model == x.model && y.os
                == x.os && y.device_type == x.device_type
        }),
        ({
            let y = x.set_model(value, source, confidence);
            weighed(x.model, y.model, value, source, confidence) && y.make == x.make && y.os
                == x.os && y.device_type == x.device_type
        }),
        ({
            let y = x.set_os(value, source, confidence);
            weighed(x.os, y.os, value, source, confidence) && y.make == x.make && y.model
                == x.model && y.device_type == x.device_type
        }),
        ({
            let y = x.set_device_type(value, source, confidence);
            weighed(x.device_type, y.device_type, value, source, confidence) && y.make == x.make
                && y.model == x.model && y.os == x.os
        }),
{
    model::law_reports_erase_nothing(x, source, seq![], value, None, confidence);
    reveal(DeviceView::set_make);
    reveal(DeviceView::set_model);
    reveal(DeviceView::set_os);
    reveal(DeviceView::set_device_type);
    model::lemma_extension_knows(x, x.set_make(value, source, confidence));
    model::lemma_extension_knows(x, x.set_model(value, source, confidence));
    model::lemma_extension_knows(x, x.set_os(value, source, confidence));
    model::lemma_extension_knows(x, x.set_device_type(value, source, confidence));
}

/// Several names.
proof fn step_names(
    before: DeviceView,
    x: DeviceView,
    names: Seq<Seq<char>>,
    source: Seq<char>,
    confidence: Confidence,
    incoming: Incoming,
)
    requires
        grew(before, x, incoming),
        forall|i: int|
            0 <= i < names.len() ==> (incoming.name)(
                NameEvidenceView {
                    name: model::normalize_name_spec(#[trigger] names[i]),
                    source,
                    confidence,
                },
            ),
    ensures
        step(before, x, apply::each_name(x, names, source, confidence), incoming),
        forall|i: int|
            0 <= i < names.len() ==> named(
                apply::each_name(x, names, source, confidence),
                #[trigger] names[i],
                source,
            ),
        same_guesses(x, apply::each_name(x, names, source, confidence)),
        x.extended_by(apply::each_name(x, names, source, confidence)),
    decreases names.len(),
{
    broadcast use {crate::model::lemma_extended_refl, crate::model::lemma_extended_trans};

    if names.len() > 0 {
        let front = names.drop_last();
        assert forall|i: int| 0 <= i < front.len() implies (incoming.name)(
            NameEvidenceView {
                name: model::normalize_name_spec(#[trigger] front[i]),
                source,
                confidence,
            },
        ) by {
            assert(names[i] == front[i]);
        }
        step_names(before, x, front, source, confidence, incoming);
        let y = apply::each_name(x, front, source, confidence);
        let z = apply::each_name(x, names, source, confidence);
        assert(names[names.len() - 1] == names.last());
        step_name(before, y, names.last(), source, confidence, incoming);
        assert forall|i: int| 0 <= i < names.len() implies named(z, #[trigger] names[i], source) by {
            if i < front.len() {
                assert(front[i] == names[i]);
                assert(named(y, front[i], source));
            }
        }
    }
}

/// Several services without a port.
proof fn step_services(
    before: DeviceView,
    x: DeviceView,
    names: Seq<Seq<char>>,
    source: Seq<char>,
    confidence: Confidence,
    incoming: Incoming,
)
    requires
        grew(before, x, incoming),
        forall|i: int|
            0 <= i < names.len() ==> (incoming.service)(
                ServiceEvidenceView { name: #[trigger] names[i], source, port: None, confidence },
            ),
    ensures
        step(before, x, apply::each_service(x, names, source, confidence), incoming),
        forall|i: int|
            0 <= i < names.len() ==> model::blank(#[trigger] names[i]) || apply::each_service(
                x,
                names,
                source,
                confidence,
            ).knows_service(names[i], source, None),
        same_guesses(x, apply::each_service(x, names, source, confidence)),
        x.extended_by(apply::each_service(x, names, source, confidence)),
    decreases names.len(),
{
    broadcast use {crate::model::lemma_extended_refl, crate::model::lemma_extended_trans};

    if names.len() > 0 {
        let front = names.drop_last();
        assert forall|i: int| 0 <= i < front.len() implies (incoming.service)(
            ServiceEvidenceView { name: #[trigger] front[i], source, port: None, confidence },
        ) by {
            assert(names[i] == front[i]);
        }
        step_services(before, x, front, source, confidence, incoming);
        let y = apply::each_service(x, front, source, confidence);
        let z = apply::each_service(x, names, source, confidence);
        assert(names[names.len() - 1] == names.last());
        step_service(before, y, names.last(), source, None, confidence, incoming);
        assert forall|i: int| 0 <= i < names.len() implies model::blank(#[trigger] names[i])
            || z.knows_service(names[i], source, None) by {
            if i < front.len() {
                assert(front[i] == names[i]);
            }
        }
    }
}

/// Several services that mDNS names.
proof fn step_mdns_services(
    before: DeviceView,
    x: DeviceView,
    services: Seq<MdnsServiceView>,
    incoming: Incoming,
)
    requires
        grew(before, x, incoming),
        forall|i: int|
            0 <= i < services.len() ==> (incoming.service)(
                ServiceEvidenceView {
                    name: (#[trigger] services[i]).name,
                    source: "mdns"@,
                    port: services[i].port,
                    confidence: 75,
                },
            ),
    ensures
        step(before, x, apply::each_mdns_service(x, services), incoming),
        forall|i: int|
            0 <= i < services.len() ==> model::blank((#[trigger] services[i]).name)
                || apply::each_mdns_service(x, services).knows_service(
                services[i].name,
                "mdns"@,
                services[i].port,
            ),
        same_guesses(x, apply::each_mdns_service(x, services)),
        x.extended_by(apply::each_mdns_service(x, services)),
    decreases services.len(),
{
    broadcast use {crate::model::lemma_extended_refl, crate::model::lemma_extended_trans};

    if services.len() > 0 {
        let front = services.drop_last();
        let s = services.last();
        assert forall|i: int| 0 <= i < front.len() implies (incoming.service)(
            ServiceEvidenceView {
                name: (#[trigger] front[i]).name,
                source: "mdns"@,
                port: front[i].port,
                confidence: 75,
            },
        ) by {
            assert(services[i] == front[i]);
        }
        step_mdns_services(before, x, front, incoming);
        let y = apply::each_mdns_service(x, front);
        let z = apply::each_mdns_service(x, services);
        assert(services[services.len() - 1] == s);
        step_service(before, y, s.name, "mdns"@, s.port, 75, incoming);
        assert forall|i: int| 0 <= i < services.len() implies model::blank(
            (#[trigger] services[i]).name,
        ) || z.knows_service(services[i].name, "mdns"@, services[i].port) by {
            if i < front.len() {
                assert(front[i] == services[i]);
            }
        }
    }
}

/// Several values of one fact.
proof fn step_facts(
    before: DeviceView,
    x: DeviceView,
    source: Seq<char>,
    key: Seq<char>,
    values: Seq<Seq<char>>,
    confidence: Confidence,
    incoming: Incoming,
)
    requires
        grew(before, x, incoming),
        forall|i: int|
            0 <= i < values.len() ==> (incoming.fact)(
                EvidenceView { source, key, value: #[trigger] values[i], confidence },
            ),
    ensures
        step(before, x, apply::each_evidence(x, source, key, values, confidence), incoming),
        forall|i: int|
            0 <= i < values.len() ==> tells(
                apply::each_evidence(x, source, key, values, confidence),
                source,
                key,
                #[trigger] values[i],
            ),
        same_guesses(x, apply::each_evidence(x, source, key, values, confidence)),
        x.extended_by(apply::each_evidence(x, source, key, values, confidence)),
    decreases values.len(),
{
    broadcast use {crate::model::lemma_extended_refl, crate::model::lemma_extended_trans};

    if values.len() > 0 {
        let front = values.drop_last();
        assert forall|i: int| 0 <= i < front.len() implies (incoming.fact)(
            EvidenceView { source, key, value: #[trigger] front[i], confidence },
        ) by {
            assert(values[i] == front[i]);
        }
        step_facts(before, x, source, key, front, confidence, incoming);
        let y = apply::each_evidence(x, source, key, front, confidence);
        let z = apply::each_evidence(x, source, key, values, confidence);
        assert(values[values.len() - 1] == values.last());
        step_fact(before, y, source, key, values.last(), confidence, incoming);
        assert forall|i: int| 0 <= i < values.len() implies tells(
            z,
            source,
            key,
            #[trigger] values[i],
        ) by {
            if i < front.len() {
                assert(front[i] == values[i]);
                assert(tells(y, source, key, front[i]));
            }
        }
    }
}

/// Every one of several facts is told.
pub open spec fn tells_each(
    d: DeviceView,
    source: Seq<char>,
    key: Seq<char>,
    values: Seq<Seq<char>>,
) -> bool {
    forall|i: int| 0 <= i < values.len() ==> tells(d, source, key, #[trigger] values[i])
}

/// Every one of several names is known.
pub open spec fn named_each(d: DeviceView, names: Seq<Seq<char>>, source: Seq<char>) -> bool {
    forall|i: int| 0 <= i < names.len() ==> named(d, #[trigger] names[i], source)
}

/// A name comes from a list of names.
pub open spec fn is_name_of(
    n: NameEvidenceView,
    names: Seq<Seq<char>>,
    source: Seq<char>,
    confidence: Confidence,
) -> bool {
    n.source == source && n.confidence == confidence && exists|i: int|
        0 <= i < names.len() && n.name == model::normalize_name_spec(#[trigger] names[i])
}

/// A name is an optional one.
pub open spec fn is_name(
    n: NameEvidenceView,
    name: Option<Seq<char>>,
    source: Seq<char>,
    confidence: Confidence,
) -> bool {
    n.source == source && n.confidence == confidence && (name matches Some(v) && n.name
        == model::normalize_name_spec(v))
}

/// A guess after an optional candidate.
pub open spec fn weighed_opt(
    before: Option<GuessView>,
    after: Option<GuessView>,
    candidate: Option<GuessView>,
) -> bool {
    match candidate {
        Some(g) => weighed(before, after, g.value, g.source, g.confidence),
        None => after == before,
    }
}

/// A guess after two optional candidates, one after the other.
pub open spec fn weighed_two(
    before: Option<GuessView>,
    after: Option<GuessView>,
    first: Option<GuessView>,
    second: Option<GuessView>,
) -> bool {
    exists|m: Option<GuessView>| #[trigger]
        weighed_opt(before, m, first) && weighed_opt(m, after, second)
}

/// An optional candidate.
pub open spec fn candidate(
    value: Option<Seq<char>>,
    source: Seq<char>,
    confidence: Confidence,
) -> Option<GuessView> {
    match value {
        Some(value) => Some(GuessView { value, source, confidence }),
        None => None,
    }
}

/// A hint at the operating system, where there is one.
proof fn step_hint(
    before: DeviceView,
    x: DeviceView,
    hint: Option<(Seq<char>, Confidence)>,
    source: Seq<char>,
    incoming: Incoming,
)
    requires
        grew(before, x, incoming),
    ensures
        step(before, x, apply::hinted_os(x, hint, source), incoming),
        x.extended_by(apply::hinted_os(x, hint, source)),
        ({
            let y = apply::hinted_os(x, hint, source);
            &&& y.make == x.make && y.model == x.model && y.device_type == x.device_type
            &&& match hint {
                Some((os, confidence)) => weighed(x.os, y.os, os, source, confidence),
                None => y.os == x.os,
            }
        }),
{
    broadcast use crate::model::lemma_extended_refl;

    if let Some((os, confidence)) = hint {
        step_guess(before, x, os, source, confidence, incoming);
    }
}

/// A hint as a candidate.
pub open spec fn hinted(hint: Option<(Seq<char>, Confidence)>, source: Seq<char>) -> Option<
    GuessView,
> {
    match hint {
        Some((value, confidence)) => Some(GuessView { value, source, confidence }),
        None => None,
    }
}

/// A text that begins with something else than white space is not blank.
proof fn lemma_not_blank(s: Seq<char>)
    requires
        s.len() > 0,
        !text::is_space(s[0]),
    ensures
        !model::blank(s),
{
    assert(text::trim_start_spec(s) == s);
    lemma_trim_end_keeps(s);
}

/// Dropping trailing white space keeps a text that begins with something else.
proof fn lemma_trim_end_keeps(s: Seq<char>)
    requires
        s.len() > 0,
        !text::is_space(s[0]),
    ensures
        text::trim_end_spec(s).len() > 0,
    decreases s.len(),
{
    if text::is_space(s.last()) {
        assert(s.drop_last()[0] == s[0]);
        lemma_trim_end_keeps(s.drop_last());
    }
}

/// The names of the protocols are not blank.
proof fn lemma_protocol_names()
    ensures
        !model::blank("snmp"@),
        !model::blank("smb"@),
        !model::blank("lldp"@),
        !model::blank("cdp"@),
{
    reveal_strlit("snmp");
    reveal_strlit("smb");
    reveal_strlit("lldp");
    reveal_strlit("cdp");
    lemma_not_blank("snmp"@);
    lemma_not_blank("smb"@);
    lemma_not_blank("lldp"@);
    lemma_not_blank("cdp"@);
}

/// The device holds what mDNS said.
pub open spec fn holds_mdns(after: DeviceView, info: MdnsInfoView) -> bool {
    &&& named_each(after, info.names, "mdns"@)
    &&& tells_opt(after, "mdns"@, "model"@, info.model)
    &&& forall|i: int|
                0 <= i < info.services.len() ==> model::blank((#[trigger] info.services[i]).name)
                    || after.knows_service(info.services[i].name, "mdns"@, info.services[i].port)
}

/// What mDNS brings in.
pub open spec fn from_mdns(info: MdnsInfoView) -> Incoming {
    Incoming {
        name: |n: NameEvidenceView| is_name_of(n, info.names, "mdns"@, 90),
        service: |s: ServiceEvidenceView| s.source == "mdns"@ && s.confidence == 75 && exists|i: int|
            0 <= i < info.services.len() && (#[trigger] info.services[i]).name == s.name
                && info.services[i].port == s.port,
        fact: |e: EvidenceView| e.source == "mdns"@ && is_fact(e, "model"@, info.model, 85),
    }
}

/// What mDNS said is in the device: every name, the model as a fact and a guess, the
/// operating system, and every service with its port. Nothing else came in.
pub proof fn law_mdns_is_told(d: DeviceView, info: MdnsInfoView)
    ensures
        ({
            let after = apply::apply_mdns_info_spec(d, info);
            &&& d.extended_by(after)
            &&& grew(d, after, from_mdns(info))
            &&& holds_mdns(after, info)
            &&& same_place(d, after)
            &&& after.make == d.make
            &&& weighed_opt(d.model, after.model, candidate(info.model, "mdns"@, 85))
            &&& weighed_opt(d.os, after.os, candidate(info.os, "mdns"@, 85))
            &&& weighed_opt(d.device_type, after.device_type, candidate(info.model, "mdns"@, 65))
        }),
{
    broadcast use crate::model::lemma_extended_refl;

    reveal(apply::apply_mdns_info_spec);
    let after = apply::apply_mdns_info_spec(d, info);
    let inc = from_mdns(info);
    assert(grew(d, d, inc));
    lemma_protocol_names();
    let d1 = apply::each_name(d, info.names, "mdns"@, 90);
    step_names(d, d, info.names, "mdns"@, 90, inc);
    model::lemma_extended_trans(d, d, d1);
    let d2 = match info.model { Some(v) => d1.add_evidence("mdns"@, "model"@, v, 85).set_model(v, "mdns"@, 85).set_device_type(v, "mdns"@, 65), None => d1 };
    if let Some(v) = info.model {
        let d3 = d1.add_evidence("mdns"@, "model"@, v, 85);
        step_fact(d, d1, "mdns"@, "model"@, v, 85, inc);
        model::lemma_extended_trans(d, d1, d3);
        let d4 = d3.set_model(v, "mdns"@, 85);
        step_guess(d, d3, v, "mdns"@, 85, inc);
        model::lemma_extended_trans(d, d3, d4);
        let d5 = d4.set_device_type(v, "mdns"@, 65);
        step_guess(d, d4, v, "mdns"@, 65, inc);
        model::lemma_extended_trans(d, d4, d5);
        assert(d2 == d5);
    }
    let d6 = match info.os { Some(v) => d2.set_os(v, "mdns"@, 85), None => d2 };
    if let Some(v) = info.os {
        let d7 = d2.set_os(v, "mdns"@, 85);
        step_guess(d, d2, v, "mdns"@, 85, inc);
        model::lemma_extended_trans(d, d2, d7);
        assert(d6 == d7);
    }
    let d8 = apply::each_mdns_service(d6, info.services);
    step_mdns_services(d, d6, info.services, inc);
    model::lemma_extended_trans(d, d6, d8);
    assert(after == d8);
}

/// The device holds what UPnP said, each field under its own key.
pub open spec fn holds_upnp(after: DeviceView, info: UpnpInfoView) -> bool {
    &&& named_each(after, info.names, "upnp"@)
    &&& tells_opt(after, "upnp"@, "manufacturer"@, info.manufacturer)
    &&& tells_opt(after, "upnp"@, "model"@, info.model)
    &&& tells_opt(after, "upnp"@, "device_type"@, info.device_type)
    &&& tells_opt(after, "upnp"@, "server"@, info.server)
    &&& tells_opt(after, "upnp"@, "location"@, info.location)
    &&& tells_each(after, "upnp"@, "usn"@, info.usns)
    &&& forall|i: int|
                0 <= i < info.services.len() ==> model::blank(#[trigger] info.services[i])
                    || after.knows_service(info.services[i], "upnp"@, None)
}

/// What UPnP brings in.
pub open spec fn from_upnp(info: UpnpInfoView) -> Incoming {
    Incoming {
        name: |n: NameEvidenceView| is_name_of(n, info.names, "upnp"@, 85),
        service: |s: ServiceEvidenceView| s.source == "upnp"@ && s.port is None && s.confidence == 70 && info.services.contains(s.name),
        fact: |e: EvidenceView| e.source == "upnp"@ && (is_fact(e, "manufacturer"@, info.manufacturer, 80) || is_fact(
            e,
            "model"@,
            info.model,
            85,
        ) || is_fact(e, "device_type"@, info.device_type, 80) || is_fact(
            e,
            "server"@,
            info.server,
            65,
        ) || is_fact(e, "location"@, info.location, 55) || is_fact_of(e, "usn"@, info.usns, 55)),
    }
}

/// What UPnP said is in the device, each field under its own key; the maker, the model,
/// the friendly type, and what the server banner hints at are candidates for the
/// guesses. Nothing else came in.
pub proof fn law_upnp_is_told(d: DeviceView, info: UpnpInfoView)
    ensures
        ({
            let after = apply::apply_upnp_info_spec(d, info);
            &&& d.extended_by(after)
            &&& grew(d, after, from_upnp(info))
            &&& holds_upnp(after, info)
            &&& same_place(d, after)
            &&& weighed_opt(d.make, after.make, candidate(info.manufacturer, "upnp"@, 80))
            &&& weighed_opt(d.model, after.model, candidate(info.model, "upnp"@, 85))
            &&& weighed_two(
                d.device_type,
                after.device_type,
                candidate(info.model, "upnp"@, 60),
                match info.device_type {
                    Some(v) => candidate(Some(upnp::friendly_type_spec(v)), "upnp"@, 75),
                    None => None,
                },
            )
            &&& weighed_opt(
                d.os,
                after.os,
                match info.server {
                    Some(v) => hinted(deep::os_hint_spec("http"@, v), "upnp"@),
                    None => None,
                },
            )
        }),
{
    broadcast use crate::model::lemma_extended_refl;

    reveal(apply::apply_upnp_info_spec);
    let after = apply::apply_upnp_info_spec(d, info);
    let inc = from_upnp(info);
    assert(grew(d, d, inc));
    lemma_protocol_names();
    let d1 = apply::each_name(d, info.names, "upnp"@, 85);
    step_names(d, d, info.names, "upnp"@, 85, inc);
    model::lemma_extended_trans(d, d, d1);
    let d2 = match info.manufacturer { Some(v) => d1.set_make(v, "upnp"@, 80).add_evidence("upnp"@, "manufacturer"@, v, 80), None => d1 };
    if let Some(v) = info.manufacturer {
        let d3 = d1.set_make(v, "upnp"@, 80);
        step_guess(d, d1, v, "upnp"@, 80, inc);
        model::lemma_extended_trans(d, d1, d3);
        let d4 = d3.add_evidence("upnp"@, "manufacturer"@, v, 80);
        step_fact(d, d3, "upnp"@, "manufacturer"@, v, 80, inc);
        model::lemma_extended_trans(d, d3, d4);
        assert(d2 == d4);
    }
    let d5 = match info.model { Some(v) => d2.set_model(v, "upnp"@, 85).add_evidence("upnp"@, "model"@, v, 85).set_device_type(v, "upnp"@, 60), None => d2 };
    if let Some(v) = info.model {
        let d6 = d2.set_model(v, "upnp"@, 85);
        step_guess(d, d2, v, "upnp"@, 85, inc);
        model::lemma_extended_trans(d, d2, d6);
        let d7 = d6.add_evidence("upnp"@, "model"@, v, 85);
        step_fact(d, d6, "upnp"@, "model"@, v, 85, inc);
        model::lemma_extended_trans(d, d6, d7);
        let d8 = d7.set_device_type(v, "upnp"@, 60);
        step_guess(d, d7, v, "upnp"@, 60, inc);
        model::lemma_extended_trans(d, d7, d8);
        assert(d5 == d8);
    }
    let d9 = match info.device_type { Some(v) => d5.add_evidence("upnp"@, "device_type"@, v, 80).set_device_type(upnp::friendly_type_spec(v), "upnp"@, 75), None => d5 };
    if let Some(v) = info.device_type {
        let d10 = d5.add_evidence("upnp"@, "device_type"@, v, 80);
        step_fact(d, d5, "upnp"@, "device_type"@, v, 80, inc);
        model::lemma_extended_trans(d, d5, d10);
        let d11 = d10.set_device_type(upnp::friendly_type_spec(v), "upnp"@, 75);
        step_guess(d, d10, upnp::friendly_type_spec(v), "upnp"@, 75, inc);
        model::lemma_extended_trans(d, d10, d11);
        assert(d9 == d11);
    }
    let d12 = match info.server { Some(v) => apply::hinted_os(d9.add_evidence("upnp"@, "server"@, v, 65), deep::os_hint_spec("http"@, v), "upnp"@), None => d9 };
    if let Some(v) = info.server {
        let d13 = d9.add_evidence("upnp"@, "server"@, v, 65);
        step_fact(d, d9, "upnp"@, "server"@, v, 65, inc);
        model::lemma_extended_trans(d, d9, d13);
        let d14 = apply::hinted_os(d13, deep::os_hint_spec("http"@, v), "upnp"@);
        step_hint(d, d13, deep::os_hint_spec("http"@, v), "upnp"@, inc);
        model::lemma_extended_trans(d, d13, d14);
        assert(d12 == d14);
    }
    let d15 = apply::opt_evidence(d12, "upnp"@, "location"@, info.location, 55);
    step_opt(d, d12, "upnp"@, "location"@, info.location, 55, inc);
    model::lemma_extended_trans(d, d12, d15);
    let d16 = apply::each_evidence(d15, "upnp"@, "usn"@, info.usns, 55);
    step_facts(d, d15, "upnp"@, "usn"@, info.usns, 55, inc);
    model::lemma_extended_trans(d, d15, d16);
    let d17 = apply::each_service(d16, info.services, "upnp"@, 70);
    step_services(d, d16, info.services, "upnp"@, 70, inc);
    model::lemma_extended_trans(d, d16, d17);
    assert(after == d17);
    assert(weighed_opt(d.device_type, d5.device_type, candidate(info.model, "upnp"@, 60)));
}

/// The device holds what SNMP said, each field of the system group under its own name.
pub open spec fn holds_snmp(after: DeviceView, info: SnmpInfoView) -> bool {
    &&& after.knows_service("snmp"@, "snmp"@, Some(161))
    &&& named_opt(after, info.sys_name, "snmp"@)
    &&& tells_opt(after, "snmp"@, "sysName"@, info.sys_name)
    &&& tells_opt(after, "snmp"@, "sysDescr"@, info.sys_descr)
    &&& tells_opt(after, "snmp"@, "sysObjectID"@, info.sys_object_id)
    &&& tells_opt(after, "snmp"@, "sysContact"@, info.sys_contact)
    &&& tells_opt(after, "snmp"@, "sysLocation"@, info.sys_location)
    &&& info.sys_services matches Some(v) ==> tells(after, "snmp"@, "sysServices"@, text::decimal_spec(v as nat))
}

/// What SNMP brings in.
pub open spec fn from_snmp(info: SnmpInfoView) -> Incoming {
    Incoming {
        name: |n: NameEvidenceView| is_name(n, info.sys_name, "snmp"@, 82),
        service: |s: ServiceEvidenceView| s == (ServiceEvidenceView { name: "snmp"@, source: "snmp"@, port: Some(161), confidence: 75 }),
        fact: |e: EvidenceView| e.source == "snmp"@ && (is_fact(e, "sysName"@, info.sys_name, 82) || is_fact(
            e,
            "sysDescr"@,
            info.sys_descr,
            90,
        ) || is_fact(e, "sysObjectID"@, info.sys_object_id, 85) || is_fact(
            e,
            "sysServices"@,
            match info.sys_services {
                Some(v) => Some(text::decimal_spec(v as nat)),
                None => None,
            },
            75,
        ) || is_fact(e, "sysContact"@, info.sys_contact, 45) || is_fact(
            e,
            "sysLocation"@,
            info.sys_location,
            45,
        )),
    }
}

/// What SNMP said is in the device, each field of the system group under its own name;
/// the name is a name, the description a candidate for the operating system, and a
/// device that forwards packets one for a network device. Nothing else came in.
pub proof fn law_snmp_is_told(d: DeviceView, info: SnmpInfoView)
    ensures
        ({
            let after = apply::apply_snmp_info_spec(d, info);
            &&& d.extended_by(after)
            &&& grew(d, after, from_snmp(info))
            &&& holds_snmp(after, info)
            &&& same_place(d, after)
            &&& after.make == d.make && after.model == d.model
            &&& weighed_opt(d.os, after.os, candidate(info.sys_descr, "snmp"@, 85))
            &&& weighed_opt(
                d.device_type,
                after.device_type,
                if info.sys_services is Some && info.sys_services->0 & 4 != 0 {
                    candidate(Some("network-device"@), "snmp"@, 55)
                } else {
                    None
                },
            )
        }),
{
    broadcast use crate::model::lemma_extended_refl;

    reveal(apply::apply_snmp_info_spec);
    let after = apply::apply_snmp_info_spec(d, info);
    let inc = from_snmp(info);
    assert(grew(d, d, inc));
    lemma_protocol_names();
    let d1 = d.add_service("snmp"@, "snmp"@, Some(161), 75);
    step_service(d, d, "snmp"@, "snmp"@, Some(161), 75, inc);
    model::lemma_extended_trans(d, d, d1);
    let d2 = match info.sys_name { Some(v) => d1.add_name(v, "snmp"@, 82).add_evidence("snmp"@, "sysName"@, v, 82), None => d1 };
    if let Some(v) = info.sys_name {
        let d3 = d1.add_name(v, "snmp"@, 82);
        step_name(d, d1, v, "snmp"@, 82, inc);
        model::lemma_extended_trans(d, d1, d3);
        let d4 = d3.add_evidence("snmp"@, "sysName"@, v, 82);
        step_fact(d, d3, "snmp"@, "sysName"@, v, 82, inc);
        model::lemma_extended_trans(d, d3, d4);
        assert(d2 == d4);
    }
    let d5 = match info.sys_descr { Some(v) => d2.add_evidence("snmp"@, "sysDescr"@, v, 90).set_os(v, "snmp"@, 85), None => d2 };
    if let Some(v) = info.sys_descr {
        let d6 = d2.add_evidence("snmp"@, "sysDescr"@, v, 90);
        step_fact(d, d2, "snmp"@, "sysDescr"@, v, 90, inc);
        model::lemma_extended_trans(d, d2, d6);
        let d7 = d6.set_os(v, "snmp"@, 85);
        step_guess(d, d6, v, "snmp"@, 85, inc);
        model::lemma_extended_trans(d, d6, d7);
        assert(d5 == d7);
    }
    let d8 = apply::opt_evidence(d5, "snmp"@, "sysObjectID"@, info.sys_object_id, 85);
    step_opt(d, d5, "snmp"@, "sysObjectID"@, info.sys_object_id, 85, inc);
    model::lemma_extended_trans(d, d5, d8);
    let d9 = match info.sys_services { Some(v) => (if v & 4 != 0 { d8.add_evidence("snmp"@, "sysServices"@, text::decimal_spec(v as nat), 75).set_device_type("network-device"@, "snmp"@, 55) } else { d8.add_evidence("snmp"@, "sysServices"@, text::decimal_spec(v as nat), 75) }), None => d8 };
    if let Some(v) = info.sys_services {
        let d10 = d8.add_evidence("snmp"@, "sysServices"@, text::decimal_spec(v as nat), 75);
        step_fact(d, d8, "snmp"@, "sysServices"@, text::decimal_spec(v as nat), 75, inc);
        model::lemma_extended_trans(d, d8, d10);
        let d11 = if v & 4 != 0 { d10.set_device_type("network-device"@, "snmp"@, 55) } else { d10 };
        if v & 4 != 0 {
            let d12 = d10.set_device_type("network-device"@, "snmp"@, 55);
            step_guess(d, d10, "network-device"@, "snmp"@, 55, inc);
            model::lemma_extended_trans(d, d10, d12);
            assert(d11 == d12);
        }
        assert(d9 == d11);
    }
    let d13 = apply::opt_evidence(d9, "snmp"@, "sysContact"@, info.sys_contact, 45);
    step_opt(d, d9, "snmp"@, "sysContact"@, info.sys_contact, 45, inc);
    model::lemma_extended_trans(d, d9, d13);
    let d14 = apply::opt_evidence(d13, "snmp"@, "sysLocation"@, info.sys_location, 45);
    step_opt(d, d13, "snmp"@, "sysLocation"@, info.sys_location, 45, inc);
    model::lemma_extended_trans(d, d13, d14);
    assert(after == d14);
}

/// The device holds what SMB said, each field under its own key.
pub open spec fn holds_smb(after: DeviceView, info: SmbInfoView) -> bool {
    &&& after.knows_service("smb"@, "smb"@, Some(445))
    &&& named_opt(after, info.dns_computer_name, "smb"@)
    &&& named_opt(after, info.netbios_computer_name, "smb"@)
    &&& tells_opt(after, "smb"@, "smb_dialect"@, info.dialect)
    &&& tells_opt(after, "smb"@, "smb_server_guid"@, info.server_guid)
    &&& tells_opt(after, "smb"@, "smb_native_os"@, info.native_os)
    &&& tells_opt(after, "smb"@, "smb_native_lanman"@, info.native_lanman)
    &&& tells_opt(after, "smb"@, "smb_dns_computer_name"@, info.dns_computer_name)
    &&& tells_opt(after, "smb"@, "smb_netbios_computer_name"@, info.netbios_computer_name)
    &&& info.signing_required == Some(true) ==> tells(after, "smb"@, "smb_signing_required"@, "true"@)
    &&& info.signing_required == Some(false) ==> tells(after, "smb"@, "smb_signing_required"@, "false"@)
}

/// What SMB brings in.
pub open spec fn from_smb(info: SmbInfoView) -> Incoming {
    Incoming {
        name: |n: NameEvidenceView| is_name(n, info.dns_computer_name, "smb"@, 86) || is_name(n, info.netbios_computer_name, "smb"@, 82),
        service: |s: ServiceEvidenceView| s == (ServiceEvidenceView { name: "smb"@, source: "smb"@, port: Some(445), confidence: 78 }),
        fact: |e: EvidenceView| e.source == "smb"@ && (is_fact(e, "smb_dialect"@, info.dialect, 78) || is_fact(
            e,
            "smb_signing_required"@,
            match info.signing_required {
                Some(v) => Some(if v { "true"@ } else { "false"@ }),
                None => None,
            },
            65,
        ) || is_fact(e, "smb_server_guid"@, info.server_guid, 65) || is_fact(
            e,
            "smb_native_os"@,
            info.native_os,
            85,
        ) || is_fact(e, "smb_native_lanman"@, info.native_lanman, 78) || is_fact(
            e,
            "smb_dns_computer_name"@,
            info.dns_computer_name,
            86,
        ) || is_fact(e, "smb_netbios_computer_name"@, info.netbios_computer_name, 82)),
    }
}

/// What SMB said is in the device, each field under its own key; host names are names,
/// and a stack that names Windows or Samba is a candidate for the operating system.
/// Nothing else came in.
pub proof fn law_smb_is_told(d: DeviceView, info: SmbInfoView)
    ensures
        ({
            let after = apply::apply_smb_info_spec(d, info);
            &&& d.extended_by(after)
            &&& grew(d, after, from_smb(info))
            &&& holds_smb(after, info)
            &&& same_place(d, after)
            &&& after.make == d.make && after.model == d.model && after.device_type == d.device_type
            &&& weighed_two(
                d.os,
                after.os,
                if info.native_os is Some && text::contains_spec(
                    text::lower_spec(info.native_os->0),
                    "windows"@,
                ) {
                    candidate(Some("Windows"@), "smb"@, 78)
                } else {
                    None
                },
                if info.native_lanman is Some && text::contains_spec(
                    text::lower_spec(info.native_lanman->0),
                    "samba"@,
                ) {
                    candidate(Some("Unix-like"@), "smb"@, 68)
                } else {
                    None
                },
            )
        }),
{
    broadcast use crate::model::lemma_extended_refl;

    reveal(apply::apply_smb_info_spec);
    let after = apply::apply_smb_info_spec(d, info);
    let inc = from_smb(info);
    assert(grew(d, d, inc));
    lemma_protocol_names();
    let d1 = d.add_service("smb"@, "smb"@, Some(445), 78);
    step_service(d, d, "smb"@, "smb"@, Some(445), 78, inc);
    model::lemma_extended_trans(d, d, d1);
    let d2 = apply::opt_evidence(d1, "smb"@, "smb_dialect"@, info.dialect, 78);
    step_opt(d, d1, "smb"@, "smb_dialect"@, info.dialect, 78, inc);
    model::lemma_extended_trans(d, d1, d2);
    let d3 = match info.signing_required { Some(v) => d2.add_evidence("smb"@, "smb_signing_required"@, apply::truth_spec(v), 65), None => d2 };
    if let Some(v) = info.signing_required {
        let d4 = d2.add_evidence("smb"@, "smb_signing_required"@, apply::truth_spec(v), 65);
        step_fact(d, d2, "smb"@, "smb_signing_required"@, apply::truth_spec(v), 65, inc);
        model::lemma_extended_trans(d, d2, d4);
        assert(d3 == d4);
    }
    let d5 = apply::opt_evidence(d3, "smb"@, "smb_server_guid"@, info.server_guid, 65);
    step_opt(d, d3, "smb"@, "smb_server_guid"@, info.server_guid, 65, inc);
    model::lemma_extended_trans(d, d3, d5);
    let d6 = match info.native_os { Some(v) => (if text::contains_spec(text::lower_spec(v), "windows"@) { d5.add_evidence("smb"@, "smb_native_os"@, v, 85).set_os("Windows"@, "smb"@, 78) } else { d5.add_evidence("smb"@, "smb_native_os"@, v, 85) }), None => d5 };
    if let Some(v) = info.native_os {
        let d7 = d5.add_evidence("smb"@, "smb_native_os"@, v, 85);
        step_fact(d, d5, "smb"@, "smb_native_os"@, v, 85, inc);
        model::lemma_extended_trans(d, d5, d7);
        let d8 = if text::contains_spec(text::lower_spec(v), "windows"@) { d7.set_os("Windows"@, "smb"@, 78) } else { d7 };
        if text::contains_spec(text::lower_spec(v), "windows"@) {
            let d9 = d7.set_os("Windows"@, "smb"@, 78);
            step_guess(d, d7, "Windows"@, "smb"@, 78, inc);
            model::lemma_extended_trans(d, d7, d9);
            assert(d8 == d9);
        }
        assert(d6 == d8);
    }
    let d10 = match info.native_lanman { Some(v) => (if text::contains_spec(text::lower_spec(v), "samba"@) { d6.add_evidence("smb"@, "smb_native_lanman"@, v, 78).set_os("Unix-like"@, "smb"@, 68) } else { d6.add_evidence("smb"@, "smb_native_lanman"@, v, 78) }), None => d6 };
    if let Some(v) = info.native_lanman {
        let d11 = d6.add_evidence("smb"@, "smb_native_lanman"@, v, 78);
        step_fact(d, d6, "smb"@, "smb_native_lanman"@, v, 78, inc);
        model::lemma_extended_trans(d, d6, d11);
        let d12 = if text::contains_spec(text::lower_spec(v), "samba"@) { d11.set_os("Unix-like"@, "smb"@, 68) } else { d11 };
        if text::contains_spec(text::lower_spec(v), "samba"@) {
            let d13 = d11.set_os("Unix-like"@, "smb"@, 68);
            step_guess(d, d11, "Unix-like"@, "smb"@, 68, inc);
            model::lemma_extended_trans(d, d11, d13);
            assert(d12 == d13);
        }
        assert(d10 == d12);
    }
    let d14 = match info.dns_computer_name { Some(v) => d10.add_name(v, "smb"@, 86).add_evidence("smb"@, "smb_dns_computer_name"@, v, 86), None => d10 };
    if let Some(v) = info.dns_computer_name {
        let d15 = d10.add_name(v, "smb"@, 86);
        step_name(d, d10, v, "smb"@, 86, inc);
        model::lemma_extended_trans(d, d10, d15);
        let d16 = d15.add_evidence("smb"@, "smb_dns_computer_name"@, v, 86);
        step_fact(d, d15, "smb"@, "smb_dns_computer_name"@, v, 86, inc);
        model::lemma_extended_trans(d, d15, d16);
        assert(d14 == d16);
    }
    let d17 = match info.netbios_computer_name { Some(v) => d14.add_name(v, "smb"@, 82).add_evidence("smb"@, "smb_netbios_computer_name"@, v, 82), None => d14 };
    if let Some(v) = info.netbios_computer_name {
        let d18 = d14.add_name(v, "smb"@, 82);
        step_name(d, d14, v, "smb"@, 82, inc);
        model::lemma_extended_trans(d, d14, d18);
        let d19 = d18.add_evidence("smb"@, "smb_netbios_computer_name"@, v, 82);
        step_fact(d, d18, "smb"@, "smb_netbios_computer_name"@, v, 82, inc);
        model::lemma_extended_trans(d, d18, d19);
        assert(d17 == d19);
    }
    assert(after == d17);
    assert(weighed_opt(
        d.os,
        d6.os,
        if info.native_os is Some && text::contains_spec(
            text::lower_spec(info.native_os->0),
            "windows"@,
        ) {
            candidate(Some("Windows"@), "smb"@, 78)
        } else {
            None
        },
    ));
}

/// The device holds what a lease said, each field under its own key.
pub open spec fn holds_lease(after: DeviceView, info: DhcpLeaseView) -> bool {
    &&& named_opt(after, info.hostname, "dhcp"@)
    &&& tells_opt(after, "dhcp"@, "mac"@, info.mac)
    &&& tells_opt(after, "dhcp"@, "client_id"@, info.client_id)
    &&& tells_opt(after, "dhcp"@, "vendor_class"@, info.vendor_class)
    &&& tells_opt(after, "dhcp"@, "lease_source"@, info.source)
}

/// What a lease brings in.
pub open spec fn from_lease(info: DhcpLeaseView) -> Incoming {
    Incoming {
        name: |n: NameEvidenceView| is_name(n, info.hostname, "dhcp"@, 72),
        service: |s: ServiceEvidenceView| false,
        fact: |e: EvidenceView| e.source == "dhcp"@ && (is_fact(e, "mac"@, info.mac, 55) || is_fact(
            e,
            "client_id"@,
            info.client_id,
            55,
        ) || is_fact(e, "vendor_class"@, info.vendor_class, 65) || is_fact(
            e,
            "lease_source"@,
            info.source,
            35,
        )),
    }
}

/// What a lease said is in the device, each field under its own key. A lease fills a
/// missing MAC address and vendor, and replaces neither. Nothing else came in.
pub proof fn law_lease_is_told(d: DeviceView, info: DhcpLeaseView, oui_db: Option<TextMapView>)
    ensures
        ({
            let after = apply::apply_dhcp_lease_spec(d, info, oui_db);
            &&& d.extended_by(after)
            &&& grew(d, after, from_lease(info))
            &&& holds_lease(after, info)
            &&& after.ip == d.ip && after.interface == d.interface && after.first_seen == d.first_seen && after.last_seen == d.last_seen
            &&& after.mac == (match d.mac {
                Some(mac) => Some(mac),
                None => info.mac,
            })
            &&& after.vendor == (match (d.vendor, after.mac, oui_db) {
                (None, Some(mac), Some(db)) => oui::vendor_spec(db, mac),
                _ => d.vendor,
            })
            &&& same_guesses(d, after)
        }),
{
    broadcast use crate::model::lemma_extended_refl;

    reveal(apply::apply_dhcp_lease_spec);
    let after = apply::apply_dhcp_lease_spec(d, info, oui_db);
    let inc = from_lease(info);
    assert(grew(d, d, inc));
    lemma_protocol_names();
    let d1 = match info.mac { Some(v) => apply::filled_mac(d, Some(v)).add_evidence("dhcp"@, "mac"@, v, 55), None => d };
    if let Some(v) = info.mac {
        let a = apply::filled_mac(d, Some(v));
        assert(d.extended_by(a)) by { reveal(DeviceView::extended_by); }
        assert(grew(d, a, inc));
        step_fact(d, a, "dhcp"@, "mac"@, v, 55, inc);
        model::lemma_extended_trans(d, a, d1);
    }
    let d2 = apply::filled_vendor(d1, oui_db);
    assert(d1.extended_by(d2)) by { reveal(DeviceView::extended_by); }
    model::lemma_extended_trans(d, d1, d2);
    model::lemma_extension_knows(d1, d2);
    assert(grew(d, d2, inc));
    let d3 = match info.hostname { Some(v) => d2.add_name(v, "dhcp"@, 72), None => d2 };
    if let Some(v) = info.hostname {
        let d4 = d2.add_name(v, "dhcp"@, 72);
        step_name(d, d2, v, "dhcp"@, 72, inc);
        model::lemma_extended_trans(d, d2, d4);
        assert(d3 == d4);
    }
    let d5 = apply::opt_evidence(d3, "dhcp"@, "client_id"@, info.client_id, 55);
    step_opt(d, d3, "dhcp"@, "client_id"@, info.client_id, 55, inc);
    model::lemma_extended_trans(d, d3, d5);
    let d6 = apply::opt_evidence(d5, "dhcp"@, "vendor_class"@, info.vendor_class, 65);
    step_opt(d, d5, "dhcp"@, "vendor_class"@, info.vendor_class, 65, inc);
    model::lemma_extended_trans(d, d5, d6);
    let d7 = apply::opt_evidence(d6, "dhcp"@, "lease_source"@, info.source, 35);
    step_opt(d, d6, "dhcp"@, "lease_source"@, info.source, 35, inc);
    model::lemma_extended_trans(d, d6, d7);
    assert(after == d7);
}

/// The device holds what an LLDP advertisement said, each field under its own key.
pub open spec fn holds_lldp(after: DeviceView, info: LldpInfoView) -> bool {
    &&& after.knows_service("lldp"@, "lldp"@, None)
    &&& tells(after, "lldp"@, "source_mac"@, info.source_mac)
    &&& tells_opt(after, "lldp"@, "chassis_id"@, info.chassis_id)
    &&& tells_opt(after, "lldp"@, "chassis_id_subtype"@, info.chassis_id_subtype)
    &&& tells_opt(after, "lldp"@, "chassis_mac"@, info.chassis_mac)
    &&& tells_opt(after, "lldp"@, "port_id"@, info.port_id)
    &&& tells_opt(after, "lldp"@, "port_id_subtype"@, info.port_id_subtype)
    &&& tells_opt(after, "lldp"@, "port_description"@, info.port_description)
    &&& tells_opt(after, "lldp"@, "system_name"@, info.system_name)
    &&& tells_opt(after, "lldp"@, "system_description"@, info.system_description)
    &&& info.ttl matches Some(v) ==> tells(after, "lldp"@, "ttl"@, text::decimal_spec(v as nat))
    &&& named_opt(after, info.system_name, "lldp"@)
    &&& tells_each(after, "lldp"@, "system_capability"@, info.system_capabilities)
    &&& tells_each(after, "lldp"@, "enabled_capability"@, info.enabled_capabilities)
    &&& tells_each(after, "lldp"@, "management_address"@, addr::address_texts_spec(info.management_addresses))
}

/// What an LLDP advertisement brings in.
pub open spec fn from_lldp(info: LldpInfoView) -> Incoming {
    Incoming {
        name: |n: NameEvidenceView| is_name(n, info.system_name, "lldp"@, 88),
        service: |s: ServiceEvidenceView| s == (ServiceEvidenceView { name: "lldp"@, source: "lldp"@, port: None, confidence: 72 }),
        fact: |e: EvidenceView| e.source == "lldp"@ && (is_fact(e, "source_mac"@, Some(info.source_mac), 76) || is_fact(
            e,
            "chassis_id"@,
            info.chassis_id,
            82,
        ) || is_fact(e, "chassis_id_subtype"@, info.chassis_id_subtype, 62) || is_fact(
            e,
            "chassis_mac"@,
            info.chassis_mac,
            82,
        ) || is_fact(e, "port_id"@, info.port_id, 70) || is_fact(
            e,
            "port_id_subtype"@,
            info.port_id_subtype,
            55,
        ) || is_fact(
            e,
            "ttl"@,
            match info.ttl {
                Some(v) => Some(text::decimal_spec(v as nat)),
                None => None,
            },
            45,
        ) || is_fact(e, "port_description"@, info.port_description, 65) || is_fact(
            e,
            "system_name"@,
            info.system_name,
            88,
        ) || is_fact(e, "system_description"@, info.system_description, 90) || is_fact_of(
            e,
            "system_capability"@,
            info.system_capabilities,
            70,
        ) || is_fact_of(e, "enabled_capability"@, info.enabled_capabilities, 82) || is_fact_of(
            e,
            "management_address"@,
            addr::address_texts_spec(info.management_addresses),
            84,
        )),
    }
}

/// What an LLDP advertisement said is in the device, each field under its own key; the
/// system name is a name, the system description a candidate for the operating system,
/// and the enabled capabilities one for the type. A missing MAC address is filled with
/// that of the chassis, or with that of the sender. Nothing else came in.
#[verifier::rlimit(80)]
pub proof fn law_lldp_is_told(d: DeviceView, info: LldpInfoView, oui_db: Option<TextMapView>)
    ensures
        ({
            let after = apply::apply_lldp_info_spec(d, info, oui_db);
            &&& d.extended_by(after)
            &&& grew(d, after, from_lldp(info))
            &&& holds_lldp(after, info)
            &&& after.ip == d.ip && after.interface == d.interface && after.first_seen == d.first_seen && after.last_seen == d.last_seen
            &&& after.mac == (match d.mac {
                Some(mac) => Some(mac),
                None => match info.chassis_mac { Some(mac) => Some(mac), None => Some(info.source_mac) },
            })
            &&& after.vendor == (match (d.vendor, after.mac, oui_db) {
                (None, Some(mac), Some(db)) => oui::vendor_spec(db, mac),
                _ => d.vendor,
            })
            &&& after.make == d.make && after.model == d.model
            &&& weighed_opt(d.os, after.os, candidate(info.system_description, "lldp"@, 82))
            &&& weighed_opt(
                d.device_type,
                after.device_type,
                if info.enabled_capabilities.contains("wlan-access-point"@) {
                    candidate(Some("wireless-ap"@), "lldp"@, 88)
                } else if info.enabled_capabilities.contains("router"@) {
                    candidate(Some("router"@), "lldp"@, 86)
                } else if info.enabled_capabilities.contains("bridge"@) {
                    candidate(Some("switch"@), "lldp"@, 86)
                } else if info.enabled_capabilities.len() > 0 {
                    candidate(Some("network-device"@), "lldp"@, 72)
                } else {
                    None
                },
            )
        }),
{
    broadcast use crate::model::lemma_extended_refl;

    reveal(apply::apply_lldp_info_spec);
    let after = apply::apply_lldp_info_spec(d, info, oui_db);
    let inc = from_lldp(info);
    assert(grew(d, d, inc));
    lemma_protocol_names();
    let d1 = d.add_service("lldp"@, "lldp"@, None, 72);
    step_service(d, d, "lldp"@, "lldp"@, None, 72, inc);
    model::lemma_extended_trans(d, d, d1);
    let d2 = apply::filled_mac(d1, match info.chassis_mac { Some(v) => Some(v), None => Some(info.source_mac) });
    assert(d1.extended_by(d2)) by { reveal(DeviceView::extended_by); }
    model::lemma_extended_trans(d, d1, d2);
    model::lemma_extension_knows(d1, d2);
    assert(grew(d, d2, inc));
    let d3 = apply::filled_vendor(d2, oui_db);
    assert(d2.extended_by(d3)) by { reveal(DeviceView::extended_by); }
    model::lemma_extended_trans(d, d2, d3);
    model::lemma_extension_knows(d2, d3);
    assert(grew(d, d3, inc));
    let d4 = d3.add_evidence("lldp"@, "source_mac"@, info.source_mac, 76);
    step_fact(d, d3, "lldp"@, "source_mac"@, info.source_mac, 76, inc);
    model::lemma_extended_trans(d, d3, d4);
    let d5 = apply::opt_evidence(d4, "lldp"@, "chassis_id"@, info.chassis_id, 82);
    step_opt(d, d4, "lldp"@, "chassis_id"@, info.chassis_id, 82, inc);
    model::lemma_extended_trans(d, d4, d5);
    let d6 = apply::opt_evidence(d5, "lldp"@, "chassis_id_subtype"@, info.chassis_id_subtype, 62);
    step_opt(d, d5, "lldp"@, "chassis_id_subtype"@, info.chassis_id_subtype, 62, inc);
    model::lemma_extended_trans(d, d5, d6);
    let d7 = apply::opt_evidence(d6, "lldp"@, "chassis_mac"@, info.chassis_mac, 82);
    step_opt(d, d6, "lldp"@, "chassis_mac"@, info.chassis_mac, 82, inc);
    model::lemma_extended_trans(d, d6, d7);
    let d8 = apply::opt_evidence(d7, "lldp"@, "port_id"@, info.port_id, 70);
    step_opt(d, d7, "lldp"@, "port_id"@, info.port_id, 70, inc);
    model::lemma_extended_trans(d, d7, d8);
    let d9 = apply::opt_evidence(d8, "lldp"@, "port_id_subtype"@, info.port_id_subtype, 55);
    step_opt(d, d8, "lldp"@, "port_id_subtype"@, info.port_id_subtype, 55, inc);
    model::lemma_extended_trans(d, d8, d9);
    let d10 = match info.ttl { Some(v) => d9.add_evidence("lldp"@, "ttl"@, text::decimal_spec(v as nat), 45), None => d9 };
    if let Some(v) = info.ttl {
        let d11 = d9.add_evidence("lldp"@, "ttl"@, text::decimal_spec(v as nat), 45);
        step_fact(d, d9, "lldp"@, "ttl"@, text::decimal_spec(v as nat), 45, inc);
        model::lemma_extended_trans(d, d9, d11);
        assert(d10 == d11);
    }
    let d12 = apply::opt_evidence(d10, "lldp"@, "port_description"@, info.port_description, 65);
    step_opt(d, d10, "lldp"@, "port_description"@, info.port_description, 65, inc);
    model::lemma_extended_trans(d, d10, d12);
    let d13 = match info.system_name { Some(v) => d12.add_name(v, "lldp"@, 88).add_evidence("lldp"@, "system_name"@, v, 88), None => d12 };
    if let Some(v) = info.system_name {
        let d14 = d12.add_name(v, "lldp"@, 88);
        step_name(d, d12, v, "lldp"@, 88, inc);
        model::lemma_extended_trans(d, d12, d14);
        let d15 = d14.add_evidence("lldp"@, "system_name"@, v, 88);
        step_fact(d, d14, "lldp"@, "system_name"@, v, 88, inc);
        model::lemma_extended_trans(d, d14, d15);
        assert(d13 == d15);
    }
    let d16 = match info.system_description { Some(v) => d13.add_evidence("lldp"@, "system_description"@, v, 90).set_os(v, "lldp"@, 82), None => d13 };
    if let Some(v) = info.system_description {
        let d17 = d13.add_evidence("lldp"@, "system_description"@, v, 90);
        step_fact(d, d13, "lldp"@, "system_description"@, v, 90, inc);
        model::lemma_extended_trans(d, d13, d17);
        let d18 = d17.set_os(v, "lldp"@, 82);
        step_guess(d, d17, v, "lldp"@, 82, inc);
        model::lemma_extended_trans(d, d17, d18);
        assert(d16 == d18);
    }
    let d19 = apply::each_evidence(d16, "lldp"@, "system_capability"@, info.system_capabilities, 70);
    step_facts(d, d16, "lldp"@, "system_capability"@, info.system_capabilities, 70, inc);
    model::lemma_extended_trans(d, d16, d19);
    let d20 = apply::each_evidence(d19, "lldp"@, "enabled_capability"@, info.enabled_capabilities, 82);
    step_facts(d, d19, "lldp"@, "enabled_capability"@, info.enabled_capabilities, 82, inc);
    model::lemma_extended_trans(d, d19, d20);
    let d21 = apply::each_evidence(d20, "lldp"@, "management_address"@, addr::address_texts_spec(info.management_addresses), 84);
    step_facts(d, d20, "lldp"@, "management_address"@, addr::address_texts_spec(info.management_addresses), 84, inc);
    model::lemma_extended_trans(d, d20, d21);
    step_guess(d, d21, "wireless-ap"@, "lldp"@, 88, inc);
    step_guess(d, d21, "router"@, "lldp"@, 86, inc);
    step_guess(d, d21, "switch"@, "lldp"@, 86, inc);
    step_guess(d, d21, "network-device"@, "lldp"@, 72, inc);
    let d22 = if info.enabled_capabilities.contains("wlan-access-point"@) { d21.set_device_type("wireless-ap"@, "lldp"@, 88) } else if info.enabled_capabilities.contains("router"@) { d21.set_device_type("router"@, "lldp"@, 86) } else if info.enabled_capabilities.contains("bridge"@) { d21.set_device_type("switch"@, "lldp"@, 86) } else if info.enabled_capabilities.len() > 0 { d21.set_device_type("network-device"@, "lldp"@, 72) } else { d21 };
    model::lemma_extended_trans(d, d21, d22);
    assert(after == d22);
}

/// The device holds what a CDP advertisement said, each field under its own key.
pub open spec fn holds_cdp(after: DeviceView, info: CdpInfoView) -> bool {
    &&& after.knows_service("cdp"@, "cdp"@, None)
    &&& tells(after, "cdp"@, "source_mac"@, info.source_mac)
    &&& tells(after, "cdp"@, "version"@, text::decimal_spec(info.version as nat))
    &&& tells(after, "cdp"@, "ttl"@, text::decimal_spec(info.ttl as nat))
    &&& tells_opt(after, "cdp"@, "device_id"@, info.device_id)
    &&& tells_opt(after, "cdp"@, "port_id"@, info.port_id)
    &&& tells_opt(after, "cdp"@, "software_version"@, info.software_version)
    &&& tells_opt(after, "cdp"@, "platform"@, info.platform)
    &&& tells_opt(after, "cdp"@, "duplex"@, info.duplex)
    &&& info.native_vlan matches Some(v) ==> tells(after, "cdp"@, "native_vlan"@, text::decimal_spec(v as nat))
    &&& named_opt(after, info.device_id, "cdp"@)
    &&& tells_each(after, "cdp"@, "capability"@, info.capabilities)
    &&& tells_each(after, "cdp"@, "address"@, addr::address_texts_spec(info.addresses))
    &&& tells_each(after, "cdp"@, "management_address"@, addr::address_texts_spec(info.management_addresses))
}

/// What a CDP advertisement brings in.
pub open spec fn from_cdp(info: CdpInfoView) -> Incoming {
    Incoming {
        name: |n: NameEvidenceView| is_name(n, info.device_id, "cdp"@, 88),
        service: |s: ServiceEvidenceView| s == (ServiceEvidenceView { name: "cdp"@, source: "cdp"@, port: None, confidence: 72 }),
        fact: |e: EvidenceView| e.source == "cdp"@ && (is_fact(e, "source_mac"@, Some(info.source_mac), 76) || is_fact(
            e,
            "version"@,
            Some(text::decimal_spec(info.version as nat)),
            45,
        ) || is_fact(e, "ttl"@, Some(text::decimal_spec(info.ttl as nat)), 45) || is_fact(
            e,
            "device_id"@,
            info.device_id,
            88,
        ) || is_fact(e, "port_id"@, info.port_id, 70) || is_fact(
            e,
            "software_version"@,
            info.software_version,
            90,
        ) || is_fact(e, "platform"@, info.platform, 86) || is_fact(
            e,
            "native_vlan"@,
            match info.native_vlan {
                Some(v) => Some(text::decimal_spec(v as nat)),
                None => None,
            },
            55,
        ) || is_fact(e, "duplex"@, info.duplex, 45) || is_fact_of(
            e,
            "capability"@,
            info.capabilities,
            82,
        ) || is_fact_of(e, "address"@, addr::address_texts_spec(info.addresses), 78) || is_fact_of(
            e,
            "management_address"@,
            addr::address_texts_spec(info.management_addresses),
            84,
        )),
    }
}

/// What a CDP advertisement said is in the device, each field under its own key; the
/// device identifier is a name, and software, platform and capabilities are candidates
/// for the guesses. A platform is one of Cisco. Nothing else came in.
#[verifier::rlimit(80)]
pub proof fn law_cdp_is_told(d: DeviceView, info: CdpInfoView, oui_db: Option<TextMapView>)
    ensures
        ({
            let after = apply::apply_cdp_info_spec(d, info, oui_db);
            &&& d.extended_by(after)
            &&& grew(d, after, from_cdp(info))
            &&& holds_cdp(after, info)
            &&& after.ip == d.ip && after.interface == d.interface && after.first_seen == d.first_seen && after.last_seen == d.last_seen
            &&& after.mac == (match d.mac {
                Some(mac) => Some(mac),
                None => Some(info.source_mac),
            })
            &&& after.vendor == (match (d.vendor, after.mac, oui_db) {
                (None, Some(mac), Some(db)) => oui::vendor_spec(db, mac),
                _ => d.vendor,
            })
            &&& weighed_opt(d.make, after.make, if info.platform is Some { candidate(Some("Cisco"@), "cdp"@, 78) } else { None })
            &&& weighed_opt(d.model, after.model, candidate(info.platform, "cdp"@, 82))
            &&& weighed_opt(d.os, after.os, candidate(info.software_version, "cdp"@, 82))
            &&& weighed_opt(
                d.device_type,
                after.device_type,
                if info.capabilities.contains("phone"@) {
                    candidate(Some("phone"@), "cdp"@, 88)
                } else if info.capabilities.contains("router"@) {
                    candidate(Some("router"@), "cdp"@, 86)
                } else if info.capabilities.contains("switch"@) {
                    candidate(Some("switch"@), "cdp"@, 86)
                } else if info.capabilities.len() > 0 {
                    candidate(Some("network-device"@), "cdp"@, 72)
                } else {
                    None
                },
            )
        }),
{
    broadcast use crate::model::lemma_extended_refl;

    reveal(apply::apply_cdp_info_spec);
    let after = apply::apply_cdp_info_spec(d, info, oui_db);
    let inc = from_cdp(info);
    assert(grew(d, d, inc));
    lemma_protocol_names();
    let d1 = d.add_service("cdp"@, "cdp"@, None, 72);
    step_service(d, d, "cdp"@, "cdp"@, None, 72, inc);
    model::lemma_extended_trans(d, d, d1);
    let d2 = apply::filled_mac(d1, Some(info.source_mac));
    assert(d1.extended_by(d2)) by { reveal(DeviceView::extended_by); }
    model::lemma_extended_trans(d, d1, d2);
    model::lemma_extension_knows(d1, d2);
    assert(grew(d, d2, inc));
    let d3 = apply::filled_vendor(d2, oui_db);
    assert(d2.extended_by(d3)) by { reveal(DeviceView::extended_by); }
    model::lemma_extended_trans(d, d2, d3);
    model::lemma_extension_knows(d2, d3);
    assert(grew(d, d3, inc));
    let d4 = d3.add_evidence("cdp"@, "source_mac"@, info.source_mac, 76);
    step_fact(d, d3, "cdp"@, "source_mac"@, info.source_mac, 76, inc);
    model::lemma_extended_trans(d, d3, d4);
    let d5 = d4.add_evidence("cdp"@, "version"@, text::decimal_spec(info.version as nat), 45);
    step_fact(d, d4, "cdp"@, "version"@, text::decimal_spec(info.version as nat), 45, inc);
    model::lemma_extended_trans(d, d4, d5);
    let d6 = d5.add_evidence("cdp"@, "ttl"@, text::decimal_spec(info.ttl as nat), 45);
    step_fact(d, d5, "cdp"@, "ttl"@, text::decimal_spec(info.ttl as nat), 45, inc);
    model::lemma_extended_trans(d, d5, d6);
    let d7 = match info.device_id { Some(v) => d6.add_name(v, "cdp"@, 88).add_evidence("cdp"@, "device_id"@, v, 88), None => d6 };
    if let Some(v) = info.device_id {
        let d8 = d6.add_name(v, "cdp"@, 88);
        step_name(d, d6, v, "cdp"@, 88, inc);
        model::lemma_extended_trans(d, d6, d8);
        let d9 = d8.add_evidence("cdp"@, "device_id"@, v, 88);
        step_fact(d, d8, "cdp"@, "device_id"@, v, 88, inc);
        model::lemma_extended_trans(d, d8, d9);
        assert(d7 == d9);
    }
    let d10 = apply::opt_evidence(d7, "cdp"@, "port_id"@, info.port_id, 70);
    step_opt(d, d7, "cdp"@, "port_id"@, info.port_id, 70, inc);
    model::lemma_extended_trans(d, d7, d10);
    let d11 = match info.software_version { Some(v) => d10.add_evidence("cdp"@, "software_version"@, v, 90).set_os(v, "cdp"@, 82), None => d10 };
    if let Some(v) = info.software_version {
        let d12 = d10.add_evidence("cdp"@, "software_version"@, v, 90);
        step_fact(d, d10, "cdp"@, "software_version"@, v, 90, inc);
        model::lemma_extended_trans(d, d10, d12);
        let d13 = d12.set_os(v, "cdp"@, 82);
        step_guess(d, d12, v, "cdp"@, 82, inc);
        model::lemma_extended_trans(d, d12, d13);
        assert(d11 == d13);
    }
    let d14 = match info.platform { Some(v) => d11.add_evidence("cdp"@, "platform"@, v, 86).set_model(v, "cdp"@, 82).set_make("Cisco"@, "cdp"@, 78), None => d11 };
    if let Some(v) = info.platform {
        let d15 = d11.add_evidence("cdp"@, "platform"@, v, 86);
        step_fact(d, d11, "cdp"@, "platform"@, v, 86, inc);
        model::lemma_extended_trans(d, d11, d15);
        let d16 = d15.set_model(v, "cdp"@, 82);
        step_guess(d, d15, v, "cdp"@, 82, inc);
        model::lemma_extended_trans(d, d15, d16);
        let d17 = d16.set_make("Cisco"@, "cdp"@, 78);
        step_guess(d, d16, "Cisco"@, "cdp"@, 78, inc);
        model::lemma_extended_trans(d, d16, d17);
        assert(d14 == d17);
    }
    let d18 = match info.native_vlan { Some(v) => d14.add_evidence("cdp"@, "native_vlan"@, text::decimal_spec(v as nat), 55), None => d14 };
    if let Some(v) = info.native_vlan {
        let d19 = d14.add_evidence("cdp"@, "native_vlan"@, text::decimal_spec(v as nat), 55);
        step_fact(d, d14, "cdp"@, "native_vlan"@, text::decimal_spec(v as nat), 55, inc);
        model::lemma_extended_trans(d, d14, d19);
        assert(d18 == d19);
    }
    let d20 = apply::opt_evidence(d18, "cdp"@, "duplex"@, info.duplex, 45);
    step_opt(d, d18, "cdp"@, "duplex"@, info.duplex, 45, inc);
    model::lemma_extended_trans(d, d18, d20);
    let d21 = apply::each_evidence(d20, "cdp"@, "capability"@, info.capabilities, 82);
    step_facts(d, d20, "cdp"@, "capability"@, info.capabilities, 82, inc);
    model::lemma_extended_trans(d, d20, d21);
    let d22 = apply::each_evidence(d21, "cdp"@, "address"@, addr::address_texts_spec(info.addresses), 78);
    step_facts(d, d21, "cdp"@, "address"@, addr::address_texts_spec(info.addresses), 78, inc);
    model::lemma_extended_trans(d, d21, d22);
    let d23 = apply::each_evidence(d22, "cdp"@, "management_address"@, addr::address_texts_spec(info.management_addresses), 84);
    step_facts(d, d22, "cdp"@, "management_address"@, addr::address_texts_spec(info.management_addresses), 84, inc);
    model::lemma_extended_trans(d, d22, d23);
    step_guess(d, d23, "phone"@, "cdp"@, 88, inc);
    step_guess(d, d23, "router"@, "cdp"@, 86, inc);
    step_guess(d, d23, "switch"@, "cdp"@, 86, inc);
    step_guess(d, d23, "network-device"@, "cdp"@, 72, inc);
    let d24 = if info.capabilities.contains("phone"@) { d23.set_device_type("phone"@, "cdp"@, 88) } else if info.capabilities.contains("router"@) { d23.set_device_type("router"@, "cdp"@, 86) } else if info.capabilities.contains("switch"@) { d23.set_device_type("switch"@, "cdp"@, 86) } else if info.capabilities.len() > 0 { d23.set_device_type("network-device"@, "cdp"@, 72) } else { d23 };
    model::lemma_extended_trans(d, d23, d24);
    assert(after == d24);
}

/// The device holds what an open port said.
pub open spec fn holds_port(after: DeviceView, p: PortProbeView) -> bool {
    &&& model::blank(p.service) || after.knows_service(p.service, "deep"@, Some(p.port))
    &&& tells_opt(after, "deep"@, p.service + "_banner"@, p.banner)
    &&& p.banner matches Some(v) ==> tells_opt(after, "deep"@, "http_server"@, deep::server_in_lines(text::split_char_spec(v, '|')))
}

/// What an open port brings in.
pub open spec fn from_port(p: PortProbeView) -> Incoming {
    Incoming {
        name: |n: NameEvidenceView| false,
        service: |s: ServiceEvidenceView| s == (ServiceEvidenceView { name: p.service, source: "deep"@, port: Some(p.port), confidence: 70 }),
        fact: |e: EvidenceView| e.source == "deep"@ && p.banner is Some && (is_fact(
            e,
            p.service + "_banner"@,
            p.banner,
            75,
        ) || is_fact(
            e,
            "http_server"@,
            deep::server_in_lines(text::split_char_spec(p.banner->0, '|')),
            70,
        )),
    }
}

/// What an open port said is in the device: the service on its port and the banner; the
/// port and the banner hint at the type and the operating system. Nothing else came in.
pub proof fn law_open_port_is_told(d: DeviceView, p: PortProbeView)
    ensures
        ({
            let after = apply::with_port(d, p);
            &&& d.extended_by(after)
            &&& grew(d, after, from_port(p))
            &&& holds_port(after, p)
            &&& same_place(d, after)
            &&& after.make == d.make && after.model == d.model
            &&& weighed_opt(d.device_type, after.device_type, hinted(deep::type_hint_spec(p.port), "deep"@))
            &&& weighed_two(
                d.os,
                after.os,
                if p.port == 445 || p.port == 139 {
                    candidate(Some("Windows/SMB capable"@), "deep"@, 45)
                } else {
                    None
                },
                match p.banner {
                    Some(v) => hinted(deep::os_hint_spec(p.service, v), "deep"@),
                    None => None,
                },
            )
        }),
{
    broadcast use crate::model::lemma_extended_refl;

    reveal(apply::with_port);
    let after = apply::with_port(d, p);
    let inc = from_port(p);
    assert(grew(d, d, inc));
    lemma_protocol_names();
    let d1 = d.add_service(p.service, "deep"@, Some(p.port), 70);
    step_service(d, d, p.service, "deep"@, Some(p.port), 70, inc);
    model::lemma_extended_trans(d, d, d1);
    let d2 = match deep::type_hint_spec(p.port) { Some((t, c)) => d1.set_device_type(t, "deep"@, c), None => d1 };
    if let Some((t, c)) = deep::type_hint_spec(p.port) {
        step_guess(d, d1, t, "deep"@, c, inc);
    }
    model::lemma_extended_trans(d, d1, d2);
    let d3 = if p.port == 445 || p.port == 139 { d2.set_os("Windows/SMB capable"@, "deep"@, 45) } else { d2 };
    if p.port == 445 || p.port == 139 {
        let d4 = d2.set_os("Windows/SMB capable"@, "deep"@, 45);
        step_guess(d, d2, "Windows/SMB capable"@, "deep"@, 45, inc);
        model::lemma_extended_trans(d, d2, d4);
        assert(d3 == d4);
    }
    let d5 = match p.banner { Some(v) => apply::hinted_os(apply::opt_evidence(d3.add_evidence("deep"@, p.service + "_banner"@, v, 75), "deep"@, "http_server"@, deep::server_in_lines(text::split_char_spec(v, '|')), 70), deep::os_hint_spec(p.service, v), "deep"@), None => d3 };
    if let Some(v) = p.banner {
        let d6 = d3.add_evidence("deep"@, p.service + "_banner"@, v, 75);
        step_fact(d, d3, "deep"@, p.service + "_banner"@, v, 75, inc);
        model::lemma_extended_trans(d, d3, d6);
        let d7 = apply::opt_evidence(d6, "deep"@, "http_server"@, deep::server_in_lines(text::split_char_spec(v, '|')), 70);
        step_opt(d, d6, "deep"@, "http_server"@, deep::server_in_lines(text::split_char_spec(v, '|')), 70, inc);
        model::lemma_extended_trans(d, d6, d7);
        let d8 = apply::hinted_os(d7, deep::os_hint_spec(p.service, v), "deep"@);
        step_hint(d, d7, deep::os_hint_spec(p.service, v), "deep"@, inc);
        model::lemma_extended_trans(d, d7, d8);
        assert(d5 == d8);
    }
    assert(after == d5);
    assert(weighed_opt(
        d.os,
        d3.os,
        if p.port == 445 || p.port == 139 {
            candidate(Some("Windows/SMB capable"@), "deep"@, 45)
        } else {
            None
        },
    ));
}

/// The device holds what a certificate said, each field under its own key.
pub open spec fn holds_certificate(after: DeviceView, p: PortProbeView) -> bool {
    &&& p.tls matches Some(t) ==> tells(after, "tls"@, "tls_cert_sha256"@, t.sha256) && tells_opt(after, "tls"@, "tls_subject"@, t.subject) && tells_opt(after, "tls"@, "tls_issuer"@, t.issuer) && tells_opt(after, "tls"@, "tls_not_after"@, t.not_after)
}

/// What a certificate brings in.
pub open spec fn from_certificate(p: PortProbeView) -> Incoming {
    Incoming {
        name: |n: NameEvidenceView| false,
        service: |s: ServiceEvidenceView| false,
        fact: |e: EvidenceView| e.source == "tls"@ && p.tls is Some && (is_fact(
            e,
            "tls_cert_sha256"@,
            Some(p.tls->0.sha256),
            72,
        ) || is_fact(e, "tls_subject"@, p.tls->0.subject, 70) || is_fact(
            e,
            "tls_issuer"@,
            p.tls->0.issuer,
            65,
        ) || is_fact(e, "tls_not_after"@, p.tls->0.not_after, 55)),
    }
}

/// What a certificate said is in the device, each field under its own key. Nothing else
/// came in.
pub proof fn law_certificate_is_told(d: DeviceView, p: PortProbeView)
    ensures
        ({
            let after = apply::with_tls(d, p);
            &&& d.extended_by(after)
            &&& grew(d, after, from_certificate(p))
            &&& holds_certificate(after, p)
            &&& same_place(d, after)
            &&& same_guesses(d, after)
        }),
{
    broadcast use crate::model::lemma_extended_refl;

    reveal(apply::with_tls);
    let after = apply::with_tls(d, p);
    let inc = from_certificate(p);
    assert(grew(d, d, inc));
    lemma_protocol_names();
    let d1 = apply::with_tls(d, p);
    if let Some(t) = p.tls {
        let a = d.add_evidence("tls"@, "tls_cert_sha256"@, t.sha256, 72);
        step_fact(d, d, "tls"@, "tls_cert_sha256"@, t.sha256, 72, inc);
        let b = apply::opt_evidence(a, "tls"@, "tls_subject"@, t.subject, 70);
        step_opt(d, a, "tls"@, "tls_subject"@, t.subject, 70, inc);
        model::lemma_extended_trans(d, a, b);
        let c = apply::opt_evidence(b, "tls"@, "tls_issuer"@, t.issuer, 65);
        step_opt(d, b, "tls"@, "tls_issuer"@, t.issuer, 65, inc);
        model::lemma_extended_trans(d, b, c);
        let e = apply::opt_evidence(c, "tls"@, "tls_not_after"@, t.not_after, 55);
        step_opt(d, c, "tls"@, "tls_not_after"@, t.not_after, 55, inc);
        model::lemma_extended_trans(d, c, e);
        assert(d1 == e);
    }
    assert(after == d1);
}

/// The key under which a header is kept: its name with underscores for hyphens, behind a
/// mark that says it is one.
pub open spec fn header_key(name: Seq<char>) -> Seq<char> {
    "http_header_"@ + name.map_values(
        |c: char|
            if c == '-' {
                '_'
            } else {
                c
            },
    )
}

/// What the headers of a response and its icon bring in.
pub open spec fn from_http(p: PortProbeView) -> Incoming {
    Incoming {
        name: |n: NameEvidenceView| false,
        service: |s: ServiceEvidenceView| false,
        fact: |e: EvidenceView|
            e.source == "http"@ && (is_header(e, p.http_headers) || (p.favicon is Some && (is_fact(
                e,
                "favicon_sha256"@,
                Some(p.favicon->0.sha256),
                72,
            ) || is_fact(e, "favicon_url"@, Some(p.favicon->0.url), 55) || is_fact(
                e,
                "favicon_bytes"@,
                Some(text::decimal_spec(p.favicon->0.bytes as nat)),
                50,
            )))),
    }
}

/// The fact is one of the headers, under its own key or, for the server, under that of
/// the server.
pub open spec fn is_header(e: EvidenceView, headers: Seq<HttpHeaderView>) -> bool {
    e.confidence == 75 && exists|i: int|
        0 <= i < headers.len() && (#[trigger] headers[i]).value == e.value && (e.key == header_key(
            headers[i].name,
        ) || (headers[i].name == "server"@ && e.key == "http_server"@))
}

/// The device tells a header.
pub open spec fn tells_header(d: DeviceView, h: HttpHeaderView) -> bool {
    tells(d, "http"@, header_key(h.name), h.value) && (h.name == "server"@ ==> tells(
        d,
        "http"@,
        "http_server"@,
        h.value,
    ))
}

/// Several headers.
proof fn step_headers(
    before: DeviceView,
    x: DeviceView,
    headers: Seq<HttpHeaderView>,
    incoming: Incoming,
)
    requires
        grew(before, x, incoming),
        forall|i: int|
            #![trigger headers[i]]
            0 <= i < headers.len() ==> (incoming.fact)(
                EvidenceView {
                    source: "http"@,
                    key: header_key(headers[i].name),
                    value: headers[i].value,
                    confidence: 75,
                },
            ) && (headers[i].name == "server"@ ==> (incoming.fact)(
                EvidenceView {
                    source: "http"@,
                    key: "http_server"@,
                    value: headers[i].value,
                    confidence: 75,
                },
            )),
    ensures
        step(before, x, apply::each_header(x, headers), incoming),
        x.extended_by(apply::each_header(x, headers)),
        forall|i: int|
            0 <= i < headers.len() ==> tells_header(
                apply::each_header(x, headers),
                #[trigger] headers[i],
            ),
        apply::each_header(x, headers).make == x.make,
        apply::each_header(x, headers).model == x.model,
        apply::each_header(x, headers).device_type == x.device_type,
        (forall|i: int| 0 <= i < headers.len() ==> (#[trigger] headers[i]).name != "server"@)
            ==> apply::each_header(x, headers).os == x.os,
    decreases headers.len(),
{
    broadcast use {crate::model::lemma_extended_refl, crate::model::lemma_extended_trans};

    if headers.len() > 0 {
        let front = headers.drop_last();
        let h = headers.last();
        assert(headers[headers.len() - 1] == h);
        assert forall|i: int|
            #![trigger front[i]]
            0 <= i < front.len() implies (incoming.fact)(
            EvidenceView {
                source: "http"@,
                key: header_key(front[i].name),
                value: front[i].value,
                confidence: 75,
            },
        ) && (front[i].name == "server"@ ==> (incoming.fact)(
            EvidenceView {
                source: "http"@,
                key: "http_server"@,
                value: front[i].value,
                confidence: 75,
            },
        )) by {
            assert(headers[i] == front[i]);
        }
        step_headers(before, x, front, incoming);
        let y = apply::each_header(x, front);
        let z = apply::each_header(x, headers);
        assert(deep::header_key_spec(h.name) =~= header_key(h.name));
        step_fact(before, y, "http"@, header_key(h.name), h.value, 75, incoming);
        let a = y.add_evidence("http"@, header_key(h.name), h.value, 75);
        if h.name == "server"@ {
            step_fact(before, a, "http"@, "http_server"@, h.value, 75, incoming);
            let b = a.add_evidence("http"@, "http_server"@, h.value, 75);
            step_hint(before, b, deep::os_hint_spec("http"@, h.value), "http"@, incoming);
        }
        assert(knowing(y, z));
        assert forall|i: int| 0 <= i < headers.len() implies tells_header(
            z,
            #[trigger] headers[i],
        ) by {
            if i < front.len() {
                assert(front[i] == headers[i]);
                assert(tells_header(y, front[i]));
            }
        }
        if forall|i: int| 0 <= i < headers.len() ==> (#[trigger] headers[i]).name != "server"@ {
            assert forall|i: int| 0 <= i < front.len() implies (#[trigger] front[i]).name
                != "server"@ by {
                assert(headers[i] == front[i]);
            }
        }
    }
}

/// What a web server said is in the device: every header under its own key, the server
/// under that of the server too, and what identifies the icon. Nothing else came in.
pub proof fn law_http_is_told(d: DeviceView, p: PortProbeView)
    ensures
        ({
            let after = apply::with_http(d, p);
            &&& d.extended_by(after)
            &&& grew(d, after, from_http(p))
            &&& same_place(d, after)
            &&& forall|i: int|
                0 <= i < p.http_headers.len() ==> tells_header(after, #[trigger] p.http_headers[i])
            &&& p.favicon matches Some(f) ==> tells(after, "http"@, "favicon_sha256"@, f.sha256)
                && tells(after, "http"@, "favicon_url"@, f.url) && tells(
                after,
                "http"@,
                "favicon_bytes"@,
                text::decimal_spec(f.bytes as nat),
            )
            &&& after.make == d.make && after.model == d.model && after.device_type
                == d.device_type
            &&& (forall|i: int|
                0 <= i < p.http_headers.len() ==> (#[trigger] p.http_headers[i]).name
                    != "server"@) ==> after.os == d.os
        }),
{
    broadcast use {crate::model::lemma_extended_refl, crate::model::lemma_extended_trans};

    reveal(apply::with_http);
    let inc = from_http(p);
    let headers = p.http_headers;
    assert(grew(d, d, inc));
    assert forall|i: int|
        #![trigger headers[i]]
        0 <= i < headers.len() implies (inc.fact)(
        EvidenceView {
            source: "http"@,
            key: header_key(headers[i].name),
            value: headers[i].value,
            confidence: 75,
        },
    ) && (headers[i].name == "server"@ ==> (inc.fact)(
        EvidenceView {
            source: "http"@,
            key: "http_server"@,
            value: headers[i].value,
            confidence: 75,
        },
    )) by {
        assert(is_header(
            EvidenceView {
                source: "http"@,
                key: header_key(headers[i].name),
                value: headers[i].value,
                confidence: 75,
            },
            headers,
        ));
        if headers[i].name == "server"@ {
            assert(is_header(
                EvidenceView {
                    source: "http"@,
                    key: "http_server"@,
                    value: headers[i].value,
                    confidence: 75,
                },
                headers,
            ));
        }
    }
    step_headers(d, d, headers, inc);
    let a = apply::each_header(d, headers);
    if let Some(f) = p.favicon {
        let b = a.add_evidence("http"@, "favicon_sha256"@, f.sha256, 72);
        step_fact(d, a, "http"@, "favicon_sha256"@, f.sha256, 72, inc);
        let c = b.add_evidence("http"@, "favicon_url"@, f.url, 55);
        step_fact(d, b, "http"@, "favicon_url"@, f.url, 55, inc);
        let n = text::decimal_spec(f.bytes as nat);
        step_fact(d, c, "http"@, "favicon_bytes"@, n, 50, inc);
    }
}

/// What is wanted of a probe, and no more, is taken from it.
pub proof fn law_probe_options_choose(d: DeviceView, p: PortProbeView, options: ProbeOptions)
    ensures
        ({
            let after = apply::each_probe(d, seq![p], options);
            &&& !options.deep && !options.http && !options.tls ==> after == d
            &&& options.deep && !options.http && !options.tls ==> after == apply::with_port(d, p)
            &&& !options.deep && options.http && !options.tls ==> after == apply::with_http(d, p)
            &&& !options.deep && !options.http && options.tls ==> after == apply::with_tls(d, p)
        }),
{
    reveal_with_fuel(apply::each_probe, 2);
    assert(seq![p].drop_last() =~= seq![]);
}

/// What the NetBIOS name service said is in the device: every name, and that it speaks
/// SMB as a weak candidate for the operating system. Nothing else came in.
pub proof fn law_netbios_is_told(d: DeviceView, names: Seq<Seq<char>>)
    ensures
        ({
            let after = apply::each_name(d, names, "netbios"@, 80).set_os(
                "Windows/SMB capable"@,
                "netbios"@,
                45,
            );
            &&& d.extended_by(after)
            &&& grew(
                d,
                after,
                Incoming {
                    name: |n: NameEvidenceView| is_name_of(n, names, "netbios"@, 80),
                    service: |s: ServiceEvidenceView| false,
                    fact: |e: EvidenceView| false,
                },
            )
            &&& same_place(d, after)
            &&& named_each(after, names, "netbios"@)
            &&& weighed(d.os, after.os, "Windows/SMB capable"@, "netbios"@, 45)
            &&& after.os is Some
            &&& after.make == d.make && after.model == d.model && after.device_type
                == d.device_type
        }),
{
    let inc = Incoming {
        name: |n: NameEvidenceView| is_name_of(n, names, "netbios"@, 80),
        service: |s: ServiceEvidenceView| false,
        fact: |e: EvidenceView| false,
    };
    assert(grew(d, d, inc));
    step_names(d, d, names, "netbios"@, 80, inc);
    let a = apply::each_name(d, names, "netbios"@, 80);
    step_guess(d, a, "Windows/SMB capable"@, "netbios"@, 45, inc);
    let b = a.set_os("Windows/SMB capable"@, "netbios"@, 45);
    model::lemma_extended_trans(d, a, b);
    reveal_strlit("Windows/SMB capable");
    lemma_not_blank("Windows/SMB capable"@);
}

} // verus!
