//! What SSDP answers and UPnP descriptions say, name by name.

use crate::addr::IpAddr;
use crate::addr;
use crate::probes::upnp::{UpnpDescriptionView, UpnpInfoView, UrlPartsView, XmlEventView};
use crate::probes::upnp;
use crate::text::laws;
use crate::text;
use crate::text_map::TextMapView;
use crate::text_map;
use vstd::prelude::*;

verus! {

/// A header: a name and a value.
pub struct Header {
    pub name: Seq<char>,
    pub value: Seq<char>,
}

/// The header fits on a line, and reads back.
pub open spec fn fits(h: Header) -> bool {
    &&& h.name.len() > 0 && laws::edged(h.name)
    &&& !h.name.contains(':') && !h.name.contains('\n')
    &&& laws::edged(h.value) && !h.value.contains('\n')
}

/// The lines of headers, each ended by a carriage return and a line feed.
pub open spec fn header_lines(headers: Seq<Header>) -> Seq<char>
    decreases headers.len(),
{
    if headers.len() == 0 {
        seq![]
    } else {
        headers[0].name + seq![':', ' '] + headers[0].value + seq!['\r', '\n'] + header_lines(
            headers.drop_first(),
        )
    }
}

/// The value of the last header of a name, however its letters are written.
pub open spec fn last_value(headers: Seq<Header>, name: Seq<char>) -> Option<Seq<char>>
    decreases headers.len(),
{
    if headers.len() == 0 {
        None
    } else {
        match last_value(headers.drop_first(), name) {
            Some(v) => Some(v),
            None => if text::lower_spec(headers[0].name) == name {
                Some(headers[0].value)
            } else {
                None
            },
        }
    }
}

/// A line sets the header that it names, and no other: white space around the name and
/// around the value is left out, and the name counts in lower case.
pub proof fn law_header_line_sets_its_header(
    headers: TextMapView,
    name: Seq<char>,
    value: Seq<char>,
    other: Seq<char>,
)
    requires
        !name.contains(':'),
    ensures
        ({
            let after = upnp::with_header(headers, name + seq![':'] + value);
            let key = text::lower_spec(text::trim_spec(name));
            &&& after.get(key) == Some(text::trim_spec(value))
            &&& other != key ==> after.get(other) == headers.get(other)
        }),
        upnp::with_header(headers, name) == headers,
{
    laws::lemma_char_behind(name, ':', value);
    laws::lemma_char_nowhere(name, ':');
    text_map::law_value_reads_back(
        headers,
        text::lower_spec(text::trim_spec(name)),
        text::trim_spec(value),
        other,
    );
}

/// One header on a line.
proof fn lemma_header(headers: TextMapView, h: Header, other: Seq<char>)
    requires
        fits(h),
    ensures
        ({
            let line = h.name + seq![':', ' '] + h.value;
            let after = upnp::with_header(headers, text::trim_end_char_spec(line, '\r'));
            &&& text::trim_end_char_spec(line, '\r').len() > 0
            &&& after.get(text::lower_spec(h.name)) == Some(h.value)
            &&& other != text::lower_spec(h.name) ==> after.get(other) == headers.get(other)
        }),
{
    let none = Seq::<char>::empty();
    let line = h.name + seq![':', ' '] + h.value;
    if h.value.len() > 0 {
        assert(line.last() == h.value.last());
    } else {
        assert(line.last() == ' ');
    }
    assert(line =~= h.name + seq![':'] + (seq![' '] + h.value));
    law_header_line_sets_its_header(headers, h.name, seq![' '] + h.value, other);
    assert(laws::blank(seq![' ']));
    assert(laws::blank(none));
    laws::law_trimming_takes_the_white_space_around(seq![' '], h.value, none);
    assert(seq![' '] + h.value + none =~= seq![' '] + h.value);
    laws::law_trimming_takes_the_white_space_around(none, h.name, none);
    assert(none + h.name + none =~= h.name);
}

/// Headers on lines.
proof fn lemma_headers(start: TextMapView, headers: Seq<Header>, name: Seq<char>, rest: Seq<char>)
    requires
        forall|i: int| 0 <= i < headers.len() ==> fits(#[trigger] headers[i]),
        text::lines_spec(rest).len() > 0 ==> text::lines_spec(rest)[0].len() == 0,
    ensures
        upnp::with_header_lines(start, text::lines_spec(header_lines(headers) + rest)).get(name)
            == (match last_value(headers, name) {
            Some(v) => Some(v),
            None => start.get(name),
        }),
    decreases headers.len(),
{
    if headers.len() == 0 {
        assert(header_lines(headers) + rest =~= rest);
        let all = text::lines_spec(rest);
        if all.len() > 0 {
            assert(all[0] =~= seq![]);
        }
    } else {
        let h = headers[0];
        let tail = headers.drop_first();
        assert forall|i: int| 0 <= i < tail.len() implies fits(#[trigger] tail[i]) by {
            assert(tail[i] == headers[i + 1]);
        }
        let line = h.name + seq![':', ' '] + h.value;
        let more = header_lines(tail) + rest;
        assert(header_lines(headers) + rest =~= line + seq!['\r', '\n'] + more);
        assert(!line.contains('\n')) by {
            if line.contains('\n') {
                let k = choose|k: int| 0 <= k < line.len() && line[k] == '\n';
                if k < h.name.len() {
                    assert(h.name[k] == '\n');
                } else if k >= h.name.len() + 2 {
                    assert(h.value[k - h.name.len() - 2] == '\n');
                }
            }
        }
        assert(line.last() != '\r') by {
            if h.value.len() > 0 {
                assert(line.last() == h.value.last());
            } else {
                assert(line.last() == ' ');
            }
        }
        laws::law_lines_end_at_line_feeds(line, more);
        let all = text::lines_spec(line + seq!['\r', '\n'] + more);
        assert(all[0] == line);
        assert(all.drop_first() =~= text::lines_spec(more));
        lemma_header(start, h, name);
        let between = upnp::with_header(start, text::trim_end_char_spec(line, '\r'));
        lemma_headers(between, tail, name, rest);
    }
}

/// The headers of an answer read back by their names: an answer is a line with the
/// status of success, a line for each header, and an empty line; what follows does not
/// count.
pub proof fn law_answer_headers_read_back(
    reason: Seq<char>,
    headers: Seq<Header>,
    body: Seq<char>,
    name: Seq<char>,
)
    requires
        !reason.contains('\n'),
        laws::edged(reason),
        forall|i: int| 0 <= i < headers.len() ==> fits(#[trigger] headers[i]),
    ensures
        ({
            let packet = "HTTP/1.1 200"@ + reason + seq!['\r', '\n'] + header_lines(headers)
                + seq!['\r', '\n'] + body;
            let read = upnp::ssdp_response_spec(vstd::utf8::encode_utf8(packet));
            &&& read is Some
            &&& read->0.headers.get(name) == last_value(headers, name)
        }),
{
    let none = Seq::<char>::empty();
    let first = "HTTP/1.1 200"@ + reason;
    let packet = first + seq!['\r', '\n'] + header_lines(headers) + seq!['\r', '\n'] + body;
    let rest = seq!['\r', '\n'] + body;
    vstd::utf8::encode_utf8_valid_utf8(packet);
    vstd::utf8::encode_utf8_decode_utf8(packet);
    reveal_strlit("HTTP/1.1 200");
    assert(!first.contains('\n')) by {
        if first.contains('\n') {
            let k = choose|k: int| 0 <= k < first.len() && first[k] == '\n';
            if k >= 12 {
                assert(reason[k - 12] == '\n');
            }
        }
    }
    assert(laws::edged(first)) by {
        assert(first[0] == 'H');
        if reason.len() > 0 {
            assert(first.last() == reason.last());
        } else {
            assert(first.last() == '0');
        }
    }
    assert(packet =~= first + seq!['\r', '\n'] + (header_lines(headers) + rest));
    laws::law_lines_end_at_line_feeds(first, header_lines(headers) + rest);
    laws::law_lines_end_at_line_feeds(none, body);
    assert(none + seq!['\r', '\n'] + body =~= rest);
    assert(text::lines_spec(rest)[0] =~= none);
    assert(laws::blank(none));
    laws::law_trimming_takes_the_white_space_around(none, first, none);
    assert(none + first + none =~= first);
    laws::law_texts_contain_their_parts(none, "HTTP/1.1 200"@, reason);
    let all = text::lines_spec(packet);
    assert(all[0] == first);
    assert(all.drop_first() =~= text::lines_spec(header_lines(headers) + rest));
    let start = TextMapView { entries: seq![] };
    lemma_headers(start, headers, name, rest);
    assert(start.get(name) is None);
}

/// What the list of values has with one more.
proof fn lemma_unique(values: Seq<Seq<char>>, value: Seq<char>, x: Seq<char>)
    ensures
        upnp::add_unique(values, value).contains(x) <==> values.contains(x) || (text::trim_spec(
            value,
        ) == x && x.len() > 0),
{
    let v = text::trim_spec(value);
    let after = upnp::add_unique(values, value);
    if v.len() > 0 && !values.contains(v) {
        assert(after[values.len() as int] == v);
        if values.contains(x) {
            let k = choose|k: int| 0 <= k < values.len() && values[k] == x;
            assert(after[k] == x);
        }
        if after.contains(x) && !values.contains(x) {
            let k = choose|k: int| 0 <= k < after.len() && after[k] == x;
            if k < values.len() {
                assert(values[k] == x);
            }
        }
    }
}

/// What the list of values has with more.
proof fn lemma_services(values: Seq<Seq<char>>, more: Seq<Seq<char>>, x: Seq<char>)
    ensures
        UpnpInfoView::services_with(values, more).contains(x) <==> values.contains(x) || (exists|
            i: int,
        |
            0 <= i < more.len() && text::trim_spec(#[trigger] more[i]) == x && x.len() > 0),
    decreases more.len(),
{
    if more.len() > 0 {
        let front = more.drop_last();
        lemma_services(values, front, x);
        lemma_unique(UpnpInfoView::services_with(values, front), more.last(), x);
        assert(more[more.len() - 1] == more.last());
        if exists|i: int| 0 <= i < front.len() && text::trim_spec(#[trigger] front[i]) == x
            && x.len() > 0 {
            let i = choose|i: int|
                0 <= i < front.len() && text::trim_spec(#[trigger] front[i]) == x && x.len() > 0;
            assert(more[i] == front[i]);
        }
        if exists|i: int| 0 <= i < more.len() && text::trim_spec(#[trigger] more[i]) == x
            && x.len() > 0 {
            let i = choose|i: int|
                0 <= i < more.len() && text::trim_spec(#[trigger] more[i]) == x && x.len() > 0;
            if i < front.len() {
                assert(front[i] == more[i]);
            }
        }
    }
}

/// What was known, or else what is said.
pub open spec fn first_known(
    before: Option<Seq<char>>,
    after: Option<Seq<char>>,
    said: Option<Seq<char>>,
) -> bool {
    if before is Some {
        after == before
    } else {
        after == said
    }
}

/// A list grows by a value where one is said, without the white space around it, unless
/// nothing is left of it.
pub open spec fn grows_by(
    before: Seq<Seq<char>>,
    after: Seq<Seq<char>>,
    said: Option<Seq<char>>,
) -> bool {
    forall|x: Seq<char>| #[trigger]
        after.contains(x) <==> before.contains(x) || (x.len() > 0 && said is Some && x
            == text::trim_spec(said->0))
}

/// The headers of an answer say where and what a device is: "server" and "location" fill
/// what is missing, "st" and otherwise "nt" is a service, and "usn" an identifier. Nothing
/// else changes.
pub proof fn law_headers_are_taken_in(info: UpnpInfoView, headers: TextMapView)
    ensures
        ({
            let after = info.with_headers(headers);
            let st = headers.get("st"@);
            &&& first_known(info.server, after.server, headers.get("server"@))
            &&& first_known(info.location, after.location, headers.get("location"@))
            &&& st is Some ==> grows_by(info.services, after.services, st)
            &&& st is None ==> grows_by(info.services, after.services, headers.get("nt"@))
            &&& grows_by(info.usns, after.usns, headers.get("usn"@))
            &&& after.names == info.names
            &&& after.manufacturer == info.manufacturer
            &&& after.model == info.model
            &&& after.device_type == info.device_type
        }),
{
    let after = info.with_headers(headers);
    let service = upnp::either(headers.get("st"@), headers.get("nt"@));
    let usn = headers.get("usn"@);
    assert forall|x: Seq<char>| #[trigger]
        after.services.contains(x) <==> info.services.contains(x) || (x.len() > 0 && service is Some
            && x == text::trim_spec(service->0)) by {
        if service is Some {
            lemma_unique(info.services, service->0, x);
        }
    }
    assert forall|x: Seq<char>| #[trigger]
        after.usns.contains(x) <==> info.usns.contains(x) || (x.len() > 0 && usn is Some && x
            == text::trim_spec(usn->0)) by {
        if usn is Some {
            lemma_unique(info.usns, usn->0, x);
        }
    }
}

/// A description says who made a device and what it is: the friendly name is a name, the
/// manufacturer and the type fill what is missing, and the model name does, or else the
/// model description. Nothing else changes.
pub proof fn law_description_is_taken_in(info: UpnpInfoView, d: UpnpDescriptionView)
    ensures
        ({
            let after = info.with_description(d);
            &&& grows_by(info.names, after.names, d.friendly_name)
            &&& first_known(info.manufacturer, after.manufacturer, d.manufacturer)
            &&& d.model_name is Some ==> first_known(info.model, after.model, d.model_name)
            &&& d.model_name is None ==> first_known(info.model, after.model, d.model_description)
            &&& first_known(info.device_type, after.device_type, d.device_type)
            &&& forall|x: Seq<char>| #[trigger]
                after.services.contains(x) <==> info.services.contains(x) || (exists|i: int|
                    0 <= i < d.services.len() && text::trim_spec(#[trigger] d.services[i]) == x
                        && x.len() > 0)
            &&& after.server == info.server
            &&& after.location == info.location
            &&& after.usns == info.usns
        }),
{
    let after = info.with_description(d);
    assert forall|x: Seq<char>| #[trigger]
        after.names.contains(x) <==> info.names.contains(x) || (x.len() > 0 && d.friendly_name is Some
            && x == text::trim_spec(d.friendly_name->0)) by {
        if d.friendly_name is Some {
            lemma_unique(info.names, d.friendly_name->0, x);
        }
    }
    assert forall|x: Seq<char>| #[trigger]
        after.services.contains(x) <==> info.services.contains(x) || (exists|i: int|
            0 <= i < d.services.len() && text::trim_spec(#[trigger] d.services[i]) == x && x.len()
                > 0) by {
        lemma_services(info.services, d.services, x);
    }
}

/// An element of a document: its name and the text in it.
pub struct Element {
    pub name: Seq<char>,
    pub words: Seq<char>,
}

/// The steps of reading elements one behind the other.
pub open spec fn steps(elements: Seq<Element>) -> Seq<XmlEventView>
    decreases elements.len(),
{
    if elements.len() == 0 {
        seq![]
    } else {
        seq![
            XmlEventView::Start(elements[0].name),
            XmlEventView::Text(Ok(elements[0].words)),
            XmlEventView::End,
        ] + steps(elements.drop_first())
    }
}

/// The text of the last element of a name that is not blank.
pub open spec fn last_words(elements: Seq<Element>, name: Seq<char>) -> Option<Seq<char>>
    decreases elements.len(),
{
    if elements.len() == 0 {
        None
    } else {
        match last_words(elements.drop_first(), name) {
            Some(v) => Some(v),
            None => if elements[0].name == name && text::trim_spec(elements[0].words).len() > 0 {
                Some(text::trim_spec(elements[0].words))
            } else {
                None
            },
        }
    }
}

/// Some element of a name holds a text.
pub open spec fn holds_words(elements: Seq<Element>, name: Seq<char>, x: Seq<char>) -> bool {
    exists|i: int|
        0 <= i < elements.len() && (#[trigger] elements[i]).name == name && text::trim_spec(
            elements[i].words,
        ) == x && x.len() > 0
}

/// What was known, unless an element says otherwise.
pub open spec fn last_known(
    before: Option<Seq<char>>,
    after: Option<Seq<char>>,
    said: Option<Seq<char>>,
) -> bool {
    if said is Some {
        after == said
    } else {
        after == before
    }
}

/// One description is another with elements added.
pub open spec fn adds(
    before: UpnpDescriptionView,
    after: UpnpDescriptionView,
    elements: Seq<Element>,
) -> bool {
    &&& last_known(before.friendly_name, after.friendly_name, last_words(elements, "friendlyName"@))
    &&& last_known(before.manufacturer, after.manufacturer, last_words(elements, "manufacturer"@))
    &&& last_known(before.model_name, after.model_name, last_words(elements, "modelName"@))
    &&& last_known(
        before.model_description,
        after.model_description,
        last_words(elements, "modelDescription"@),
    )
    &&& last_known(before.device_type, after.device_type, last_words(elements, "deviceType"@))
    &&& forall|x: Seq<char>| #[trigger]
        after.services.contains(x) <==> before.services.contains(x) || holds_words(
            elements,
            "serviceType"@,
            x,
        )
}

/// The names of elements differ.
proof fn lemma_element_names()
    ensures
        ({
            let a = "friendlyName"@;
            let b = "manufacturer"@;
            let c = "modelName"@;
            let d = "modelDescription"@;
            let e = "deviceType"@;
            let f = "serviceType"@;
            &&& a != b && a != c && a != d && a != e && a != f
            &&& b != c && b != d && b != e && b != f
            &&& c != d && c != e && c != f
            &&& d != e && d != f
            &&& e != f
        }),
{
    reveal_strlit("friendlyName");
    reveal_strlit("manufacturer");
    reveal_strlit("modelName");
    reveal_strlit("modelDescription");
    reveal_strlit("deviceType");
    reveal_strlit("serviceType");
    assert("friendlyName"@.len() == 12 && "friendlyName"@[0] == 'f');
    assert("manufacturer"@.len() == 12 && "manufacturer"@[0] == 'm');
    assert("modelName"@.len() == 9);
    assert("modelDescription"@.len() == 16);
    assert("deviceType"@.len() == 10);
    assert("serviceType"@.len() == 11);
}

/// A trimmed text is trimmed.
proof fn lemma_trim_again(s: Seq<char>)
    ensures
        text::trim_spec(text::trim_spec(s)) == text::trim_spec(s),
{
    let none = Seq::<char>::empty();
    let t = text::trim_spec(s);
    text::lemma_trim_start_len(s);
    lemma_trim_end_len(text::trim_start_spec(s));
    assert(laws::edged(t));
    assert(laws::blank(none));
    laws::law_trimming_takes_the_white_space_around(none, t, none);
    assert(none + t + none =~= t);
}

/// What is left of a text at its end.
proof fn lemma_trim_end_len(s: Seq<char>)
    ensures
        text::trim_end_spec(s).len() <= s.len(),
        text::trim_end_spec(s).len() > 0 ==> text::trim_end_spec(s)[0] == s[0] && !text::is_space(
            text::trim_end_spec(s).last(),
        ),
    decreases s.len(),
{
    if s.len() > 0 && text::is_space(s.last()) {
        lemma_trim_end_len(s.drop_last());
    }
}

/// One element.
proof fn lemma_element(before: UpnpDescriptionView, e: Element)
    ensures
        ({
            let t = text::trim_spec(e.words);
            let after = if t.len() == 0 {
                before
            } else {
                before.with_text(e.name, t)
            };
            adds(before, after, seq![e])
        }),
{
    reveal_with_fuel(last_words, 2);
    lemma_element_names();
    assert(seq![e].drop_first() =~= seq![]);
    let t = text::trim_spec(e.words);
    let after = if t.len() == 0 {
        before
    } else {
        before.with_text(e.name, t)
    };
    lemma_trim_again(e.words);
    assert forall|x: Seq<char>| #[trigger]
        after.services.contains(x) <==> before.services.contains(x) || holds_words(
            seq![e],
            "serviceType"@,
            x,
        ) by {
        lemma_unique(before.services, t, x);
        if e.name == "serviceType"@ && t == x && x.len() > 0 {
            assert(seq![e][0].name == "serviceType"@);
        }
    }
}

/// Added elements add up.
proof fn lemma_adds(
    a: UpnpDescriptionView,
    b: UpnpDescriptionView,
    c: UpnpDescriptionView,
    elements: Seq<Element>,
)
    requires
        elements.len() > 0,
        adds(a, b, seq![elements[0]]),
        adds(b, c, elements.drop_first()),
    ensures
        adds(a, c, elements),
{
    reveal_with_fuel(last_words, 2);
    assert(seq![elements[0]].drop_first() =~= seq![]);
    let tail = elements.drop_first();
    let one = seq![elements[0]];
    let name = "serviceType"@;
    assert forall|x: Seq<char>| #[trigger]
        c.services.contains(x) <==> a.services.contains(x) || holds_words(elements, name, x) by {
        assert(c.services.contains(x) <==> b.services.contains(x) || holds_words(tail, name, x));
        assert(b.services.contains(x) <==> a.services.contains(x) || holds_words(one, name, x));
        if holds_words(one, name, x) {
            assert(elements[0] == one[0]);
        }
        if holds_words(tail, name, x) {
            let i = choose|i: int|
                0 <= i < tail.len() && (#[trigger] tail[i]).name == name && text::trim_spec(
                    tail[i].words,
                ) == x && x.len() > 0;
            assert(elements[i + 1] == tail[i]);
        }
        if holds_words(elements, name, x) {
            let i = choose|i: int|
                0 <= i < elements.len() && (#[trigger] elements[i]).name == name && text::trim_spec(
                    elements[i].words,
                ) == x && x.len() > 0;
            if i == 0 {
                assert(one[0] == elements[0]);
            } else {
                assert(tail[i - 1] == elements[i]);
            }
        }
    }
}

/// Every element adds to a description.
proof fn lemma_elements(
    before: UpnpDescriptionView,
    elements: Seq<Element>,
    within: Seq<char>,
)
    ensures
        before.with_events(within, steps(elements)) is Ok,
        adds(before, before.with_events(within, steps(elements))->Ok_0, elements),
    decreases elements.len(),
{
    if elements.len() > 0 {
        let e = elements[0];
        let tail = elements.drop_first();
        let s = steps(elements);
        let t = text::trim_spec(e.words);
        let between = if t.len() == 0 {
            before
        } else {
            before.with_text(e.name, t)
        };
        lemma_element(before, e);
        lemma_elements(between, tail, seq![]);
        reveal_with_fuel(UpnpDescriptionView::with_events, 4);
        assert(s[0] == XmlEventView::Start(e.name));
        assert(s.drop_first()[0] == XmlEventView::Text(Ok(e.words)));
        assert(s.drop_first().drop_first()[0] == XmlEventView::End);
        assert(s.drop_first().drop_first().drop_first() =~= steps(tail));
        assert(before.with_events(within, s) == between.with_events(seq![], steps(tail)));
        let after = before.with_events(within, s)->Ok_0;
        lemma_adds(before, between, after, elements);
    }
}

/// A description is what its elements say, each by its name: the last text of an element
/// counts, and every service.
pub proof fn law_description_elements_read_back(elements: Seq<Element>)
    ensures
        ({
            let read = upnp::described(steps(elements));
            &&& read is Ok
            &&& read->Ok_0.friendly_name == last_words(elements, "friendlyName"@)
            &&& read->Ok_0.manufacturer == last_words(elements, "manufacturer"@)
            &&& read->Ok_0.model_name == last_words(elements, "modelName"@)
            &&& read->Ok_0.model_description == last_words(elements, "modelDescription"@)
            &&& read->Ok_0.device_type == last_words(elements, "deviceType"@)
            &&& forall|x: Seq<char>| #[trigger]
                read->Ok_0.services.contains(x) <==> holds_words(elements, "serviceType"@, x)
        }),
{
    let start = UpnpDescriptionView {
        friendly_name: None,
        manufacturer: None,
        model_name: None,
        model_description: None,
        device_type: None,
        services: seq![],
    };
    lemma_elements(start, elements, seq![]);
}

/// A description may be fetched from a device by its own address alone, over HTTP or
/// HTTPS, and without credentials.
pub proof fn law_what_may_be_fetched(
    scheme: Seq<char>,
    username: Seq<char>,
    has_password: bool,
    host: IpAddr,
    source: IpAddr,
)
    ensures
        upnp::may_fetch(
            UrlPartsView { scheme, username, has_password, host: Some(host.text_spec()) },
            source,
        ) <==> (scheme == "http"@ || scheme == "https"@) && username.len() == 0 && !has_password
            && host == source,
        !upnp::may_fetch(UrlPartsView { scheme, username, has_password, host: None }, source),
{
    addr::law_address_text_reads_back(host);
}

/// The name of a device type is what stands before its version, with blanks for hyphens.
pub proof fn law_device_type_is_named(front: Seq<char>, name: Seq<char>, version: Seq<char>)
    requires
        name.len() > 0,
        !name.contains(':'),
        !version.contains(':'),
    ensures
        upnp::friendly_type_spec(front + seq![':'] + name + seq![':'] + version)
            == text::replace_char_spec(name, '-', ' '),
        upnp::friendly_type_spec(version) == text::replace_char_spec(version, '-', ' '),
{
    let raw = front + seq![':'] + name + seq![':'] + version;
    let parts = text::split_char_spec(front, ':');
    lemma_split_behind(front, name + seq![':'] + version);
    assert(raw =~= front + seq![':'] + (name + seq![':'] + version));
    text::lemma_split_front(name, version, ':');
    text::lemma_split_whole(version, ':');
    let all = text::split_char_spec(raw, ':');
    assert(all =~= parts + seq![name, version]);
}

/// The parts of a text behind another.
proof fn lemma_split_behind(front: Seq<char>, rest: Seq<char>)
    ensures
        text::split_char_spec(front + seq![':'] + rest, ':') == text::split_char_spec(front, ':')
            + text::split_char_spec(rest, ':'),
    decreases front.len(),
{
    text::lemma_char_index(front, ':');
    let k = text::char_index(front, ':');
    if k < front.len() {
        let head = front.take(k);
        let tail = front.skip(k + 1);
        if head.contains(':') {
            let m = choose|m: int| 0 <= m < head.len() && head[m] == ':';
            assert(front[m] == ':');
        }
        lemma_split_behind(tail, rest);
        assert(front + seq![':'] + rest =~= head + seq![':'] + (tail + seq![':'] + rest));
        text::lemma_split_front(head, tail + seq![':'] + rest, ':');
        assert(text::split_char_spec(front + seq![':'] + rest, ':') =~= seq![head]
            + text::split_char_spec(tail, ':') + text::split_char_spec(rest, ':'));
    } else {
        if front.contains(':') {
            let m = choose|m: int| 0 <= m < front.len() && front[m] == ':';
            assert(front[m] != ':');
        }
        text::lemma_split_front(front, rest, ':');
        text::lemma_split_whole(front, ':');
    }
}

} // verus!
