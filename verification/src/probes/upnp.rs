//! UPnP/SSDP discovery and description parsing.
//!
//! SSDP gives immediate server, location, and service hints, while the optional
//! device description adds friendly names, manufacturer, model, and device type.
//! The scanner later decides how strongly to trust those facts.

use crate::addr::{parse_ip, IpAddr};
use crate::addr;
use crate::same::holds;
use crate::text::{
    chars, concat, concat4, decimal, find_char, from_utf8, lines, lower, owned, replace_char,
    split_char, starts_with, str_eq, text, trim, trim_end_char, utf8_lossy,
};
use crate::text;
use crate::text_map::{TextMap, TextMapView};
use quick_xml::events::Event;
use vstd::prelude::*;

verus! {

/// What UPnP says of one host.
#[derive(Debug, PartialEq, Eq)]
pub struct UpnpInfo {
    pub names: Vec<String>,
    pub manufacturer: Option<String>,
    pub model: Option<String>,
    pub device_type: Option<String>,
    pub server: Option<String>,
    pub location: Option<String>,
    pub services: Vec<String>,
    pub usns: Vec<String>,
}

/// The mathematical content of a [`UpnpInfo`].
#[verifier::ext_equal]
pub struct UpnpInfoView {
    pub names: Seq<Seq<char>>,
    pub manufacturer: Option<Seq<char>>,
    pub model: Option<Seq<char>>,
    pub device_type: Option<Seq<char>>,
    pub server: Option<Seq<char>>,
    pub location: Option<Seq<char>>,
    pub services: Seq<Seq<char>>,
    pub usns: Seq<Seq<char>>,
}

impl View for UpnpInfo {
    type V = UpnpInfoView;

    open spec fn view(&self) -> UpnpInfoView {
        UpnpInfoView {
            names: self.names.deep_view(),
            manufacturer: self.manufacturer.deep_view(),
            model: self.model.deep_view(),
            device_type: self.device_type.deep_view(),
            server: self.server.deep_view(),
            location: self.location.deep_view(),
            services: self.services.deep_view(),
            usns: self.usns.deep_view(),
        }
    }
}

impl DeepView for UpnpInfo {
    type V = UpnpInfoView;

    open spec fn deep_view(&self) -> UpnpInfoView {
        self@
    }
}

impl Clone for UpnpInfo {
    fn clone(&self) -> (r: Self)
        ensures
            r@ == self@,
    {
        let r = UpnpInfo {
            names: self.names.clone(),
            manufacturer: self.manufacturer.clone(),
            model: self.model.clone(),
            device_type: self.device_type.clone(),
            server: self.server.clone(),
            location: self.location.clone(),
            services: self.services.clone(),
            usns: self.usns.clone(),
        };
        proof {
            assert(r.names.deep_view() =~= self.names.deep_view());
            assert(r.manufacturer.deep_view() =~= self.manufacturer.deep_view());
            assert(r.model.deep_view() =~= self.model.deep_view());
            assert(r.device_type.deep_view() =~= self.device_type.deep_view());
            assert(r.server.deep_view() =~= self.server.deep_view());
            assert(r.location.deep_view() =~= self.location.deep_view());
            assert(r.services.deep_view() =~= self.services.deep_view());
            assert(r.usns.deep_view() =~= self.usns.deep_view());
        }
        r
    }
}

impl Default for UpnpInfo {
    fn default() -> (r: Self)
        ensures
            r@ == (UpnpInfoView {
                names: seq![],
                manufacturer: None,
                model: None,
                device_type: None,
                server: None,
                location: None,
                services: seq![],
                usns: seq![],
            }),
    {
        let r = UpnpInfo {
            names: Vec::new(),
            manufacturer: None,
            model: None,
            device_type: None,
            server: None,
            location: None,
            services: Vec::new(),
            usns: Vec::new(),
        };
        proof {
            assert(r.names.deep_view() =~= seq![]);
            assert(r.services.deep_view() =~= seq![]);
            assert(r.usns.deep_view() =~= seq![]);
        }
        r
    }
}

/// The headers of an answer to a search.
#[derive(Debug, PartialEq, Eq)]
pub struct SsdpResponse {
    pub headers: TextMap,
}

/// The mathematical content of a [`SsdpResponse`].
#[verifier::ext_equal]
pub struct SsdpResponseView {
    pub headers: TextMapView,
}

impl View for SsdpResponse {
    type V = SsdpResponseView;

    open spec fn view(&self) -> SsdpResponseView {
        SsdpResponseView {
            headers: self.headers@,
        }
    }
}

impl DeepView for SsdpResponse {
    type V = SsdpResponseView;

    open spec fn deep_view(&self) -> SsdpResponseView {
        self@
    }
}

impl Clone for SsdpResponse {
    fn clone(&self) -> (r: Self)
        ensures
            r@ == self@,
    {
        let r = SsdpResponse {
            headers: self.headers.clone(),
        };
        r
    }
}

/// What a device description says of its device.
#[derive(Debug, PartialEq, Eq)]
pub struct UpnpDescription {
    pub friendly_name: Option<String>,
    pub manufacturer: Option<String>,
    pub model_name: Option<String>,
    pub model_description: Option<String>,
    pub device_type: Option<String>,
    pub services: Vec<String>,
}

/// The mathematical content of a [`UpnpDescription`].
#[verifier::ext_equal]
pub struct UpnpDescriptionView {
    pub friendly_name: Option<Seq<char>>,
    pub manufacturer: Option<Seq<char>>,
    pub model_name: Option<Seq<char>>,
    pub model_description: Option<Seq<char>>,
    pub device_type: Option<Seq<char>>,
    pub services: Seq<Seq<char>>,
}

impl View for UpnpDescription {
    type V = UpnpDescriptionView;

    open spec fn view(&self) -> UpnpDescriptionView {
        UpnpDescriptionView {
            friendly_name: self.friendly_name.deep_view(),
            manufacturer: self.manufacturer.deep_view(),
            model_name: self.model_name.deep_view(),
            model_description: self.model_description.deep_view(),
            device_type: self.device_type.deep_view(),
            services: self.services.deep_view(),
        }
    }
}

impl DeepView for UpnpDescription {
    type V = UpnpDescriptionView;

    open spec fn deep_view(&self) -> UpnpDescriptionView {
        self@
    }
}

impl Clone for UpnpDescription {
    fn clone(&self) -> (r: Self)
        ensures
            r@ == self@,
    {
        let r = UpnpDescription {
            friendly_name: self.friendly_name.clone(),
            manufacturer: self.manufacturer.clone(),
            model_name: self.model_name.clone(),
            model_description: self.model_description.clone(),
            device_type: self.device_type.clone(),
            services: self.services.clone(),
        };
        proof {
            assert(r.friendly_name.deep_view() =~= self.friendly_name.deep_view());
            assert(r.manufacturer.deep_view() =~= self.manufacturer.deep_view());
            assert(r.model_name.deep_view() =~= self.model_name.deep_view());
            assert(r.model_description.deep_view() =~= self.model_description.deep_view());
            assert(r.device_type.deep_view() =~= self.device_type.deep_view());
            assert(r.services.deep_view() =~= self.services.deep_view());
        }
        r
    }
}

impl Default for UpnpDescription {
    fn default() -> (r: Self)
        ensures
            r@ == (UpnpDescriptionView {
                friendly_name: None,
                manufacturer: None,
                model_name: None,
                model_description: None,
                device_type: None,
                services: seq![],
            }),
    {
        let r = UpnpDescription {
            friendly_name: None,
            manufacturer: None,
            model_name: None,
            model_description: None,
            device_type: None,
            services: Vec::new(),
        };
        proof {
            assert(r.services.deep_view() =~= seq![]);
        }
        r
    }
}

/// A host, by address, and what UPnP says of it.
#[derive(Debug, PartialEq, Eq)]
pub struct UpnpHost {
    pub ip: IpAddr,
    pub info: UpnpInfo,
}

/// The mathematical content of a [`UpnpHost`].
#[verifier::ext_equal]
pub struct UpnpHostView {
    pub ip: IpAddr,
    pub info: UpnpInfoView,
}

impl View for UpnpHost {
    type V = UpnpHostView;

    open spec fn view(&self) -> UpnpHostView {
        UpnpHostView {
            ip: self.ip,
            info: self.info@,
        }
    }
}

impl DeepView for UpnpHost {
    type V = UpnpHostView;

    open spec fn deep_view(&self) -> UpnpHostView {
        self@
    }
}

impl Clone for UpnpHost {
    fn clone(&self) -> (r: Self)
        ensures
            r@ == self@,
    {
        let r = UpnpHost {
            ip: self.ip,
            info: self.info.clone(),
        };
        r
    }
}

/// The parts of a URL that decide whether it may be fetched.
#[derive(Debug, PartialEq, Eq)]
pub struct UrlParts {
    pub scheme: String,
    pub username: String,
    pub has_password: bool,
    pub host: Option<String>,
}

/// The mathematical content of a [`UrlParts`].
#[verifier::ext_equal]
pub struct UrlPartsView {
    pub scheme: Seq<char>,
    pub username: Seq<char>,
    pub has_password: bool,
    pub host: Option<Seq<char>>,
}

impl View for UrlParts {
    type V = UrlPartsView;

    open spec fn view(&self) -> UrlPartsView {
        UrlPartsView {
            scheme: self.scheme@,
            username: self.username@,
            has_password: self.has_password,
            host: self.host.deep_view(),
        }
    }
}

impl DeepView for UrlParts {
    type V = UrlPartsView;

    open spec fn deep_view(&self) -> UrlPartsView {
        self@
    }
}

impl Clone for UrlParts {
    fn clone(&self) -> (r: Self)
        ensures
            r@ == self@,
    {
        let r = UrlParts {
            scheme: self.scheme.clone(),
            username: self.username.clone(),
            has_password: self.has_password,
            host: self.host.clone(),
        };
        proof {
            assert(r.host.deep_view() =~= self.host.deep_view());
        }
        r
    }
}

/// The largest description, in bytes, that is read.
pub const MAX_UPNP_DESCRIPTION_BYTES: usize = 262144;

/// The search that every UPnP device answers.
pub fn ssdp_request() -> (r: &'static str)
    ensures
        r@
            == "M-SEARCH * HTTP/1.1\r\nHOST: 239.255.255.250:1900\r\nMAN: \"ssdp:discover\"\r\nMX: 1\r\nST: ssdp:all\r\nUSER-AGENT: fing/0.1 UPnP/1.1\r\n\r\n"@,
{
    "M-SEARCH * HTTP/1.1\r\nHOST: 239.255.255.250:1900\r\nMAN: \"ssdp:discover\"\r\nMX: 1\r\nST: ssdp:all\r\nUSER-AGENT: fing/0.1 UPnP/1.1\r\n\r\n"
}

/// The headers after one more line: a name in lower case, a colon, and a value. A
/// line without a colon is skipped.
pub open spec fn with_header(headers: TextMapView, line: Seq<char>) -> TextMapView {
    let k = text::char_index(line, ':');
    if k < line.len() {
        headers.insert(text::lower_spec(text::trim_spec(line.take(k))), text::trim_spec(line.skip(k + 1)))
    } else {
        headers
    }
}

/// The headers after several lines, up to an empty one.
pub open spec fn with_header_lines(headers: TextMapView, all: Seq<Seq<char>>) -> TextMapView
    decreases all.len(),
{
    if all.len() == 0 || text::trim_end_char_spec(all[0], '\r').len() == 0 {
        headers
    } else {
        with_header_lines(
            with_header(headers, text::trim_end_char_spec(all[0], '\r')),
            all.drop_first(),
        )
    }
}

/// The headers of a packet that starts with a success status.
pub open spec fn ssdp_response_spec(b: Seq<u8>) -> Option<SsdpResponseView> {
    if !vstd::utf8::valid_utf8(b) {
        None
    } else {
        let all = text::lines_spec(vstd::utf8::decode_utf8(b));
        if all.len() > 0 && (text::starts_with_spec(text::trim_spec(all[0]), "HTTP/1.1 200"@)
            || text::starts_with_spec(text::trim_spec(all[0]), "HTTP/1.0 200"@)) {
            Some(
                SsdpResponseView {
                    headers: with_header_lines(
                        TextMapView { entries: seq![] },
                        all.drop_first(),
                    ),
                },
            )
        } else {
            None
        }
    }
}

/// Reads an answer to a search.
///
/// SSDP is HTTP-like but not full HTTP. A small tolerant parser is enough and
/// avoids rejecting devices that vary header casing or line endings.
pub fn parse_ssdp_response(b: &[u8]) -> (r: Option<SsdpResponse>)
    ensures
        r.deep_view() == ssdp_response_spec(b@),
{
    let shown = from_utf8(b)?;
    let c = chars(shown.as_str());
    let all = lines(c.as_slice());
    let ghost views = text::slice_views(all@);
    if all.len() == 0 {
        return None;
    }
    let status = trim(all[0]);
    proof {
        assert(views[0] == all@[0]@);
    }
    if !starts_with(status, "HTTP/1.1 200") && !starts_with(status, "HTTP/1.0 200") {
        return None;
    }
    let mut headers = TextMap::default();
    let ghost start = headers@;
    let mut i: usize = 1;
    proof {
        assert(views.drop_first() =~= views.skip(1));
    }
    while i < all.len()
        invariant
            1 <= i <= all@.len(),
            views == text::slice_views(all@),
            with_header_lines(start, views.skip(1)) == with_header_lines(
                headers@,
                views.skip(i as int),
            ),
        ensures
            headers@ == with_header_lines(start, views.skip(1)),
        decreases all@.len() - i,
    {
        let line = trim_end_char(all[i], '\r');
        proof {
            assert(views.skip(i as int)[0] == all@[i as int]@);
            assert(views.skip(i as int).drop_first() =~= views.skip(i + 1));
        }
        if line.len() == 0 {
            break;
        }
        let k: usize = find_char(line, ':');
        if k < line.len() {
            let name = vstd::slice::slice_subrange(line, 0, k);
            let value = vstd::slice::slice_subrange(line, k + 1, line.len());
            proof {
                assert(name@ =~= line@.take(k as int));
                assert(value@ =~= line@.skip(k + 1));
            }
            headers.insert(text(lower(trim(name)).as_slice()), text(trim(value)));
        }
        i = i + 1;
    }
    Some(SsdpResponse { headers })
}

/// A list with a trimmed value appended, unless the value is blank or there
/// already.
pub open spec fn add_unique(values: Seq<Seq<char>>, value: Seq<char>) -> Seq<Seq<char>> {
    let value = text::trim_spec(value);
    if value.len() == 0 || values.contains(value) {
        values
    } else {
        values.push(value)
    }
}

/// Appends a trimmed value unless it is blank or there already.
fn push_unique(values: &mut Vec<String>, value: &str)
    ensures
        final(values).deep_view() == add_unique(old(values).deep_view(), value@),
{
    let c = chars(value);
    let t = trim(c.as_slice());
    if t.len() == 0 {
        return;
    }
    let shown = text(t);
    if !holds(values, &shown) {
        values.push(shown);
        proof {
            assert(values.deep_view() =~= old(values).deep_view().push(t@));
        }
    }
}

/// A list with a value appended where there is one.
pub open spec fn add_unique_opt(values: Seq<Seq<char>>, value: Option<Seq<char>>) -> Seq<
    Seq<char>,
> {
    match value {
        Some(v) => add_unique(values, v),
        None => values,
    }
}

/// The first of two optional values that is there.
pub open spec fn either<T>(a: Option<T>, b: Option<T>) -> Option<T> {
    match a {
        Some(v) => Some(v),
        None => b,
    }
}

impl UpnpInfoView {
    /// The information after the headers of an answer. Server and location keep
    /// their first value; services and identifiers add up.
    pub open spec fn with_headers(self, headers: TextMapView) -> UpnpInfoView {
        UpnpInfoView {
            server: either(self.server, headers.get("server"@)),
            location: either(self.location, headers.get("location"@)),
            services: add_unique_opt(
                self.services,
                either(headers.get("st"@), headers.get("nt"@)),
            ),
            usns: add_unique_opt(self.usns, headers.get("usn"@)),
            ..self
        }
    }

    /// The services of a list added one by one.
    pub open spec fn services_with(values: Seq<Seq<char>>, more: Seq<Seq<char>>) -> Seq<Seq<char>>
        decreases more.len(),
    {
        if more.len() == 0 {
            values
        } else {
            add_unique(Self::services_with(values, more.drop_last()), more.last())
        }
    }

    /// The information after a description. It fills gaps and appends names and
    /// services, and erases nothing that was already reported.
    pub open spec fn with_description(self, d: UpnpDescriptionView) -> UpnpInfoView {
        UpnpInfoView {
            names: add_unique_opt(self.names, d.friendly_name),
            manufacturer: either(self.manufacturer, d.manufacturer),
            model: either(self.model, either(d.model_name, d.model_description)),
            device_type: either(self.device_type, d.device_type),
            services: Self::services_with(self.services, d.services),
            ..self
        }
    }
}

/// Adds the headers of an answer.
pub fn merge_ssdp_headers(info: &mut UpnpInfo, headers: &TextMap)
    ensures
        final(info)@ == old(info)@.with_headers(headers@),
{
    if info.server.is_none() {
        info.server = headers.get("server");
    }
    if info.location.is_none() {
        info.location = headers.get("location");
    }
    let service = match headers.get("st") {
        Some(v) => Some(v),
        None => headers.get("nt"),
    };
    match service {
        Some(v) => push_unique(&mut info.services, v.as_str()),
        None => {},
    }
    match headers.get("usn") {
        Some(v) => push_unique(&mut info.usns, v.as_str()),
        None => {},
    }
}

/// Adds a description.
pub fn merge_description(info: &mut UpnpInfo, description: UpnpDescription)
    ensures
        final(info)@ == old(info)@.with_description(description@),
{
    match &description.friendly_name {
        Some(name) => push_unique(&mut info.names, name.as_str()),
        None => {},
    }
    if info.manufacturer.is_none() {
        info.manufacturer = description.manufacturer;
    }
    if info.model.is_none() {
        info.model = match description.model_name {
            Some(m) => Some(m),
            None => description.model_description,
        };
    }
    if info.device_type.is_none() {
        info.device_type = description.device_type;
    }
    let ghost start = info@;
    let ghost more = description.services.deep_view();
    let mut i: usize = 0;
    while i < description.services.len()
        invariant
            i <= description.services@.len(),
            more == description.services.deep_view(),
            info@ == (UpnpInfoView {
                services: UpnpInfoView::services_with(start.services, more.take(i as int)),
                ..start
            }),
        decreases description.services@.len() - i,
    {
        proof {
            assert(more.take(i + 1).drop_last() =~= more.take(i as int));
            assert(more.take(i + 1).last() == description.services@[i as int]@);
        }
        push_unique(&mut info.services, description.services[i].as_str());
        i = i + 1;
    }
    proof {
        assert(more.take(i as int) =~= more);
    }
}

/// A description fills gaps and appends names and services; it takes away or replaces
/// nothing that the device announced.
pub proof fn law_description_erases_nothing(info: UpnpInfoView, d: UpnpDescriptionView)
    ensures
        ({
            let after = info.with_description(d);
            &&& after.server == info.server
            &&& after.location == info.location
            &&& after.usns == info.usns
            &&& info.names.is_prefix_of(after.names)
            &&& info.services.is_prefix_of(after.services)
            &&& info.manufacturer is Some ==> after.manufacturer == info.manufacturer
            &&& info.model is Some ==> after.model == info.model
            &&& info.device_type is Some ==> after.device_type == info.device_type
        }),
{
    lemma_services_grow(info.services, d.services);
}

/// Adding services keeps those that were there.
proof fn lemma_services_grow(values: Seq<Seq<char>>, more: Seq<Seq<char>>)
    ensures
        values.is_prefix_of(UpnpInfoView::services_with(values, more)),
    decreases more.len(),
{
    if more.len() > 0 {
        lemma_services_grow(values, more.drop_last());
    }
}

/// One step of reading an XML document.
#[derive(Debug, PartialEq, Eq)]
pub enum XmlEvent {
    /// An element starts; its name.
    Start(String),
    /// Text between tags, or why it does not decode.
    Text(Result<String, String>),
    /// An element ends.
    End,
    /// Anything else.
    Other,
    /// The document cannot be read any further; why.
    Failed(String),
}

/// The mathematical content of an [`XmlEvent`].
pub enum XmlEventView {
    Start(Seq<char>),
    Text(Result<Seq<char>, Seq<char>>),
    End,
    Other,
    Failed(Seq<char>),
}

impl View for XmlEvent {
    type V = XmlEventView;

    open spec fn view(&self) -> XmlEventView {
        match self {
            XmlEvent::Start(name) => XmlEventView::Start(name@),
            XmlEvent::Text(Ok(t)) => XmlEventView::Text(Ok(t@)),
            XmlEvent::Text(Err(e)) => XmlEventView::Text(Err(e@)),
            XmlEvent::End => XmlEventView::End,
            XmlEvent::Other => XmlEventView::Other,
            XmlEvent::Failed(e) => XmlEventView::Failed(e@),
        }
    }
}

impl DeepView for XmlEvent {
    type V = XmlEventView;

    open spec fn deep_view(&self) -> XmlEventView {
        self@
    }
}

/// The steps of reading a document, up to its end or to the first that fails.
pub uninterp spec fn xml_events_spec(xml: Seq<char>) -> Seq<XmlEventView>;

/// `quick_xml::Reader`, told to trim text, reads a document step by step; each step
/// comes out with the name or the text that it holds.
#[verifier::external_body]
fn xml_events(xml: &str) -> (r: Vec<XmlEvent>)
    ensures
        r.deep_view() == xml_events_spec(xml@),
{
    let mut reader = quick_xml::Reader::from_str(xml);
    reader.config_mut().trim_text(true);
    let mut out = Vec::new();
    loop {
        out.push(match reader.read_event() {
            Ok(Event::Start(e)) => XmlEvent::Start(String::from_utf8_lossy(e.name().as_ref()).into()),
            Ok(Event::Text(e)) => XmlEvent::Text(e.decode().map(String::from).map_err(|e| e.to_string())),
            Ok(Event::End(_)) => XmlEvent::End,
            Ok(Event::Eof) => return out,
            Ok(_) => XmlEvent::Other,
            Err(e) => { out.push(XmlEvent::Failed(e.to_string())); return out; }
        });
    }
}

impl UpnpDescriptionView {
    /// The description after text within an element.
    pub open spec fn with_text(self, element: Seq<char>, t: Seq<char>) -> UpnpDescriptionView {
        if element == "friendlyName"@ {
            UpnpDescriptionView { friendly_name: Some(t), ..self }
        } else if element == "manufacturer"@ {
            UpnpDescriptionView { manufacturer: Some(t), ..self }
        } else if element == "modelName"@ {
            UpnpDescriptionView { model_name: Some(t), ..self }
        } else if element == "modelDescription"@ {
            UpnpDescriptionView { model_description: Some(t), ..self }
        } else if element == "deviceType"@ {
            UpnpDescriptionView { device_type: Some(t), ..self }
        } else if element == "serviceType"@ {
            UpnpDescriptionView { services: add_unique(self.services, t), ..self }
        } else {
            self
        }
    }

    /// The description after the steps of a document, with the element in which
    /// they start; a step that fails is the error.
    pub open spec fn with_events(self, element: Seq<char>, events: Seq<XmlEventView>) -> Result<
        UpnpDescriptionView,
        Seq<char>,
    >
        decreases events.len(),
    {
        if events.len() == 0 {
            Ok(self)
        } else {
            let rest = events.drop_first();
            match events[0] {
                XmlEventView::Start(name) => self.with_events(name, rest),
                XmlEventView::Text(Ok(t)) => if text::trim_spec(t).len() == 0 {
                    self.with_events(element, rest)
                } else {
                    self.with_text(element, text::trim_spec(t)).with_events(element, rest)
                },
                XmlEventView::Text(Err(e)) => Err(e),
                XmlEventView::End => self.with_events(seq![], rest),
                XmlEventView::Other => self.with_events(element, rest),
                XmlEventView::Failed(_) => Err("failed to parse UPnP description XML"@),
            }
        }
    }
}

/// What the steps of a document describe.
pub open spec fn described(events: Seq<XmlEventView>) -> Result<UpnpDescriptionView, Seq<char>> {
    UpnpDescriptionView {
        friendly_name: None,
        manufacturer: None,
        model_name: None,
        model_description: None,
        device_type: None,
        services: seq![],
    }.with_events(seq![], events)
}

/// The content of a description or of why there is none.
pub open spec fn description_view(r: Result<UpnpDescription, String>) -> Result<
    UpnpDescriptionView,
    Seq<char>,
> {
    match r {
        Ok(d) => Ok(d@),
        Err(e) => Err(e@),
    }
}

/// Adds text within an element.
fn apply_text(d: &mut UpnpDescription, element: &String, t: String)
    ensures
        final(d)@ == old(d)@.with_text(element@, t@),
{
    let element = element.as_str();
    if str_eq(element, "friendlyName") {
        d.friendly_name = Some(t);
    } else if str_eq(element, "manufacturer") {
        d.manufacturer = Some(t);
    } else if str_eq(element, "modelName") {
        d.model_name = Some(t);
    } else if str_eq(element, "modelDescription") {
        d.model_description = Some(t);
    } else if str_eq(element, "deviceType") {
        d.device_type = Some(t);
    } else if str_eq(element, "serviceType") {
        push_unique(&mut d.services, t.as_str());
    }
}

/// Collects what the steps of a document describe.
///
/// Only the fields that become identity evidence are read. Unknown elements are
/// ignored so vendor extensions cannot break discovery.
pub fn describe_events(events: &Vec<XmlEvent>) -> (r: Result<UpnpDescription, String>)
    ensures
        description_view(r) == described(events.deep_view()),
{
    let ghost views = events.deep_view();
    let mut d = UpnpDescription::default();
    let mut current: String = String::new();
    let mut i: usize = 0;
    proof {
        assert(views.skip(0) =~= views);
        assert(current@ =~= seq![]);
    }
    while i < events.len()
        invariant
            i <= events@.len(),
            views == events.deep_view(),
            described(views) == d@.with_events(current@, views.skip(i as int)),
        decreases events@.len() - i,
    {
        proof {
            assert(views.skip(i as int)[0] == events@[i as int]@);
            assert(views.skip(i as int).drop_first() =~= views.skip(i + 1));
        }
        match &events[i] {
            XmlEvent::Start(name) => {
                current = name.clone();
            },
            XmlEvent::Text(Ok(t)) => {
                let c = chars(t.as_str());
                let shown = trim(c.as_slice());
                if shown.len() > 0 {
                    apply_text(&mut d, &current, text(shown));
                }
            },
            XmlEvent::Text(Err(e)) => {
                return Err(e.clone());
            },
            XmlEvent::End => {
                current = String::new();
                proof {
                    assert(current@ =~= seq![]);
                }
            },
            XmlEvent::Other => {},
            XmlEvent::Failed(_) => {
                return Err(owned("failed to parse UPnP description XML"));
            },
        }
        i = i + 1;
    }
    Ok(d)
}

/// Reads a device description.
pub fn parse_upnp_description(xml: &str) -> (r: Result<UpnpDescription, String>)
    ensures
        description_view(r) == described(xml_events_spec(xml@)),
{
    describe_events(&xml_events(xml))
}

/// The parts of the URL that a text spells.
pub uninterp spec fn url_parts_spec(url: Seq<char>) -> Option<UrlPartsView>;

/// `reqwest::Url::parse` reads an absolute URL; its scheme, user name, password, and
/// host come out as the crate gives them.
#[verifier::external_body]
fn url_parts(url: &str) -> (r: Option<UrlParts>)
    ensures
        r.deep_view() == url_parts_spec(url@),
{
    let parsed = reqwest::Url::parse(url).ok()?;
    Some(
        UrlParts {
            scheme: parsed.scheme().to_owned(),
            username: parsed.username().to_owned(),
            has_password: parsed.password().is_some(),
            host: parsed.host_str().map(str::to_owned),
        },
    )
}

/// A URL with these parts may be fetched for a device at `source`: over HTTP or
/// HTTPS, without credentials, and from the device itself.
pub open spec fn may_fetch(parts: UrlPartsView, source: IpAddr) -> bool {
    (parts.scheme == "http"@ || parts.scheme == "https"@) && parts.username.len() == 0
        && !parts.has_password && (parts.host matches Some(host) && addr::parse_ip_spec(host) == Some(
        source,
    ))
}

/// Reports whether a URL with these parts may be fetched for a device.
pub fn url_allowed(parts: &UrlParts, source: IpAddr) -> (r: bool)
    ensures
        r == may_fetch(parts@, source),
{
    if !str_eq(parts.scheme.as_str(), "http") && !str_eq(parts.scheme.as_str(), "https") {
        return false;
    }
    if !parts.username.as_str().is_empty() || parts.has_password {
        return false;
    }
    match &parts.host {
        Some(host) => match parse_ip(chars(host.as_str()).as_slice()) {
            Some(ip) => ip == source,
            None => false,
        },
        None => false,
    }
}

/// The location may be fetched for a device at `source`.
pub open spec fn location_allowed_spec(location: Seq<char>, source: IpAddr) -> bool {
    url_parts_spec(location) matches Some(parts) && may_fetch(parts, source)
}

/// Reports whether a location may be fetched for a device.
pub fn description_location_allowed(location: &str, source: IpAddr) -> (r: bool)
    ensures
        r == location_allowed_spec(location@, source),
{
    match url_parts(location) {
        Some(parts) => url_allowed(&parts, source),
        None => false,
    }
}

/// Reports whether a body of the announced length is worth reading.
pub fn description_worth_reading(content_length: Option<u64>) -> (r: bool)
    ensures
        r == (content_length matches Some(n) ==> n <= MAX_UPNP_DESCRIPTION_BYTES),
{
    match content_length {
        Some(n) => n <= MAX_UPNP_DESCRIPTION_BYTES as u64,
        None => true,
    }
}

/// What is said of a description that is too long.
pub open spec fn too_long_spec(location: Seq<char>) -> Seq<char> {
    "UPnP description from "@ + location + " exceeded "@ + (text::decimal_spec(
        MAX_UPNP_DESCRIPTION_BYTES as nat,
    ) + " bytes"@)
}

/// Says that a description is too long.
pub fn description_too_long(location: &str) -> (r: String)
    ensures
        r@ == too_long_spec(location@),
{
    concat4(
        "UPnP description from ",
        location,
        " exceeded ",
        concat(decimal(MAX_UPNP_DESCRIPTION_BYTES as u64).as_str(), " bytes").as_str(),
    )
}

/// The text of a description body; one over the limit is refused.
pub fn read_limited_description_body(b: &[u8], location: &str) -> (r: Result<String, String>)
    ensures
        match r {
            Ok(t) => b@.len() <= MAX_UPNP_DESCRIPTION_BYTES && t@ == text::utf8_lossy_spec(b@),
            Err(e) => b@.len() > MAX_UPNP_DESCRIPTION_BYTES && e@ == too_long_spec(location@),
        },
{
    if b.len() > MAX_UPNP_DESCRIPTION_BYTES {
        Err(description_too_long(location))
    } else {
        Ok(utf8_lossy(b))
    }
}

/// The short form of a device type: the part before the version, with spaces for
/// hyphens.
pub open spec fn friendly_type_spec(raw: Seq<char>) -> Seq<char> {
    let parts = text::split_char_spec(raw, ':');
    let shown = if parts.len() >= 2 && parts[parts.len() - 2].len() > 0 {
        parts[parts.len() - 2]
    } else {
        raw
    };
    text::replace_char_spec(shown, '-', ' ')
}

/// Shortens a device type.
pub fn friendly_device_type(raw: &str) -> (r: String)
    ensures
        r@ == friendly_type_spec(raw@),
{
    let c = chars(raw);
    let parts = split_char(c.as_slice(), ':');
    let ghost views = text::slice_views(parts@);
    if parts.len() >= 2 {
        let part = parts[parts.len() - 2];
        proof {
            assert(views[views.len() - 2] == part@);
        }
        if part.len() > 0 {
            return replace_char(part, '-', ' ');
        }
    }
    replace_char(c.as_slice(), '-', ' ')
}

/// The position of the entry for an address, or the length when there is none.
pub open spec fn entry_index(list: Seq<UpnpHostView>, ip: IpAddr) -> int
    decreases list.len(),
{
    if list.len() == 0 || list[0].ip == ip {
        0
    } else {
        1 + entry_index(list.drop_first(), ip)
    }
}

/// What is known of an address.
pub open spec fn known_info(list: Seq<UpnpHostView>, ip: IpAddr) -> UpnpInfoView {
    let k = entry_index(list, ip);
    if k < list.len() {
        list[k].info
    } else {
        UpnpInfoView {
            names: seq![],
            manufacturer: None,
            model: None,
            device_type: None,
            server: None,
            location: None,
            services: seq![],
            usns: seq![],
        }
    }
}

/// The list with one entry for the address set.
pub open spec fn set_entry(list: Seq<UpnpHostView>, ip: IpAddr, info: UpnpInfoView) -> Seq<
    UpnpHostView,
> {
    let k = entry_index(list, ip);
    if k < list.len() {
        list.update(k, UpnpHostView { ip, info })
    } else {
        list.push(UpnpHostView { ip, info })
    }
}

/// Finds the entry for an address.
fn find_entry(list: &Vec<UpnpHost>, ip: IpAddr) -> (r: usize)
    ensures
        r == entry_index(list.deep_view(), ip),
        r <= list@.len(),
{
    let ghost views = list.deep_view();
    let mut i: usize = 0;
    proof {
        assert(views.skip(0) =~= views);
    }
    while i < list.len() && list[i].ip != ip
        invariant
            i <= list@.len(),
            views == list.deep_view(),
            entry_index(views, ip) == i + entry_index(views.skip(i as int), ip),
        decreases list@.len() - i,
    {
        proof {
            assert(views.skip(i as int)[0] == list@[i as int]@);
            assert(views.skip(i as int).drop_first() =~= views.skip(i + 1));
        }
        i = i + 1;
    }
    proof {
        if i < list@.len() {
            assert(views.skip(i as int)[0] == list@[i as int]@);
        }
    }
    i
}

/// The location to fetch for a device at `source`: its own, where descriptions are
/// wanted, the location may be fetched for the device, and it was not fetched before.
pub open spec fn location_to_fetch(
    wanted: bool,
    fetched: Seq<Seq<char>>,
    location: Option<Seq<char>>,
    source: IpAddr,
) -> Option<Seq<char>> {
    match location {
        Some(l) => if wanted && location_allowed_spec(l, source) && !fetched.contains(l) {
            Some(l)
        } else {
            None
        },
        None => None,
    }
}

/// The locations that were fetched, with one more where there is one.
pub open spec fn with_fetched(fetched: Seq<Seq<char>>, fetch: Option<Seq<char>>) -> Seq<Seq<char>> {
    match fetch {
        Some(l) => fetched.push(l),
        None => fetched,
    }
}

/// No location is fetched twice: what was fetched before, or is fetched now, is not
/// fetched later, whichever source names it.
pub proof fn law_location_is_fetched_once(
    wanted: bool,
    fetched: Seq<Seq<char>>,
    location: Option<Seq<char>>,
    source: IpAddr,
    later: Option<Seq<char>>,
    later_source: IpAddr,
)
    requires
        fetched.no_duplicates(),
    ensures
        ({
            let fetch = location_to_fetch(wanted, fetched, location, source);
            let next = with_fetched(fetched, fetch);
            let again = location_to_fetch(wanted, next, later, later_source);
            &&& next.no_duplicates()
            &&& again is Some ==> !fetched.contains(again->0) && fetch != again
        }),
{
    let fetch = location_to_fetch(wanted, fetched, location, source);
    let next = with_fetched(fetched, fetch);
    let again = location_to_fetch(wanted, next, later, later_source);
    if again is Some {
        if fetched.contains(again->0) {
            let k = choose|k: int| 0 <= k < fetched.len() && fetched[k] == again->0;
            assert(next[k] == again->0);
        }
        if fetch == again {
            assert(next.last() == again->0);
        }
    }
}

/// A description is fetched only from the device that announced it: the location is
/// an HTTP address without credentials whose host is that device.
pub proof fn law_fetch_stays_on_the_device(
    wanted: bool,
    fetched: Seq<Seq<char>>,
    location: Option<Seq<char>>,
    source: IpAddr,
)
    ensures
        location_to_fetch(wanted, fetched, location, source) matches Some(l) ==> {
            &&& wanted
            &&& location == Some(l)
            &&& url_parts_spec(l) matches Some(parts) && {
                &&& parts.scheme == "http"@ || parts.scheme == "https"@
                &&& parts.username.len() == 0 && !parts.has_password
                &&& parts.host matches Some(host) && addr::parse_ip_spec(host) == Some(source)
            }
        },
{
}

/// Collects the answers to a search. It decides which sources count and which
/// descriptions are fetched; each location is fetched once.
pub struct SsdpCollector {
    pub fetch_descriptions: bool,
    pub responses: Vec<UpnpHost>,
    pub fetched: Vec<String>,
}

/// What comes of an answer: the information to report, and the location to fetch.
pub struct SsdpOutcome {
    pub report: Option<UpnpInfo>,
    pub fetch: Option<String>,
}

impl SsdpCollector {
    /// A collector that has seen no answer.
    pub fn new(fetch_descriptions: bool) -> (r: Self)
        ensures
            r.fetch_descriptions == fetch_descriptions,
            r.responses.deep_view() == Seq::<UpnpHostView>::empty(),
            r.fetched.deep_view() == Seq::<Seq<char>>::empty(),
    {
        let r = SsdpCollector { fetch_descriptions, responses: Vec::new(), fetched: Vec::new() };
        proof {
            assert(r.responses.deep_view() =~= seq![]);
            assert(r.fetched.deep_view() =~= seq![]);
        }
        r
    }

    /// What is known of an address.
    fn info_of(&self, ip: IpAddr) -> (r: UpnpInfo)
        ensures
            r@ == known_info(self.responses.deep_view(), ip),
    {
        let k: usize = find_entry(&self.responses, ip);
        if k < self.responses.len() {
            self.responses[k].info.clone()
        } else {
            UpnpInfo::default()
        }
    }

    /// Sets what is known of an address.
    fn put(&mut self, ip: IpAddr, info: UpnpInfo)
        ensures
            final(self).responses.deep_view() == set_entry(
                old(self).responses.deep_view(),
                ip,
                info@,
            ),
            final(self).fetched == old(self).fetched,
            final(self).fetch_descriptions == old(self).fetch_descriptions,
    {
        let k: usize = find_entry(&self.responses, ip);
        let entry = UpnpHost { ip, info };
        if k < self.responses.len() {
            self.responses.set(k, entry);
            proof {
                assert(self.responses.deep_view() =~= old(self).responses.deep_view().update(
                    k as int,
                    entry@,
                ));
            }
        } else {
            self.responses.push(entry);
            proof {
                assert(self.responses.deep_view() =~= old(self).responses.deep_view().push(entry@));
            }
        }
    }

    /// Takes in an answer. One from a source that is not allowed changes nothing,
    /// reports nothing, and fetches nothing.
    pub fn apply_ssdp_response(
        &mut self,
        source: IpAddr,
        allowed: bool,
        response: &SsdpResponse,
    ) -> (r: SsdpOutcome)
        ensures
            final(self).fetch_descriptions == old(self).fetch_descriptions,
            !allowed ==> {
                &&& final(self).responses.deep_view() == old(self).responses.deep_view()
                &&& final(self).fetched.deep_view() == old(self).fetched.deep_view()
                &&& r.report is None
                &&& r.fetch is None
            },
            allowed ==> ({
                let info = known_info(old(self).responses.deep_view(), source).with_headers(
                    response@.headers,
                );
                let fetch = location_to_fetch(
                    old(self).fetch_descriptions,
                    old(self).fetched.deep_view(),
                    info.location,
                    source,
                );
                &&& final(self).responses.deep_view() == set_entry(
                    old(self).responses.deep_view(),
                    source,
                    info,
                )
                &&& r.report.deep_view() == Some(info)
                &&& r.fetch.deep_view() == fetch
                &&& final(self).fetched.deep_view() == with_fetched(
                    old(self).fetched.deep_view(),
                    fetch,
                )
            }),
    {
        if !allowed {
            return SsdpOutcome { report: None, fetch: None };
        }
        let mut info = self.info_of(source);
        merge_ssdp_headers(&mut info, &response.headers);
        self.put(source, info.clone());
        let mut fetch: Option<String> = None;
        match &info.location {
            Some(location) => {
                if self.fetch_descriptions && description_location_allowed(location.as_str(), source)
                    && !holds(&self.fetched, location) {
                    let ghost before = self.fetched.deep_view();
                    self.fetched.push(location.clone());
                    proof {
                        assert(self.fetched.deep_view() =~= before.push(location@));
                    }
                    fetch = Some(location.clone());
                }
            },
            None => {},
        }
        SsdpOutcome { report: Some(info), fetch }
    }

    /// Takes in the description that was fetched for a source, and gives back the
    /// information to report.
    pub fn apply_description(&mut self, source: IpAddr, description: UpnpDescription) -> (r:
        UpnpInfo)
        ensures
            ({
                let info = known_info(old(self).responses.deep_view(), source).with_description(
                    description@,
                );
                &&& r@ == info
                &&& final(self).responses.deep_view() == set_entry(
                    old(self).responses.deep_view(),
                    source,
                    info,
                )
                &&& final(self).fetched.deep_view() == old(self).fetched.deep_view()
                &&& final(self).fetch_descriptions == old(self).fetch_descriptions
            }),
    {
        let mut info = self.info_of(source);
        merge_description(&mut info, description);
        self.put(source, info.clone());
        info
    }
}

} // verus!
