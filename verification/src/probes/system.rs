//! What an SNMP answer says of the system group, object by object.

use crate::addr;
use crate::ber;
use crate::discovery::adverts;
use crate::probes::snmp;
use crate::text;
use crate::text_map::TextMapView;
use crate::text_map;
use vstd::prelude::*;

verus! {

/// An answer: the identifier of an object, and the tag and the bytes of its value.
pub struct Answer {
    pub parts: Seq<u32>,
    pub tag: u8,
    pub value: Seq<u8>,
}

/// An answer on the wire.
pub open spec fn answer_wire(a: Answer) -> Seq<u8> {
    ber::tlv_spec(0x30, ber::tlv_spec(0x06, ber::oid_body(a.parts)) + ber::tlv_spec(a.tag, a.value))
}

/// Answers on the wire.
pub open spec fn answers_wire(answers: Seq<Answer>) -> Seq<u8>
    decreases answers.len(),
{
    if answers.len() == 0 {
        seq![]
    } else {
        answer_wire(answers[0]) + answers_wire(answers.drop_first())
    }
}

/// A response on the wire: the version, the community, and the request that is answered
/// with a status, an index, and the answers.
pub open spec fn response_wire(
    version: Seq<u8>,
    community: Seq<u8>,
    request: Seq<u8>,
    status: Seq<u8>,
    index: Seq<u8>,
    answers: Seq<Answer>,
) -> Seq<u8> {
    ber::tlv_spec(
        0x30,
        ber::tlv_spec(0x02, version) + (ber::tlv_spec(0x04, community) + ber::tlv_spec(
            0xa2,
            ber::tlv_spec(0x02, request) + (ber::tlv_spec(0x02, status) + (ber::tlv_spec(
                0x02,
                index,
            ) + ber::tlv_spec(0x30, answers_wire(answers)))),
        )),
    )
}

/// A short value stands behind its tag and its length.
pub proof fn law_short_value_stands_behind_its_length(tag: u8, value: Seq<u8>)
    requires
        value.len() < 128,
    ensures
        ber::tlv_spec(tag, value) == seq![tag, value.len() as u8] + value,
{
    assert(ber::tlv_spec(tag, value) =~= seq![tag, value.len() as u8] + value);
}

/// The identifiers can be written and read.
pub open spec fn readable(answers: Seq<Answer>) -> bool {
    forall|i: int|
        0 <= i < answers.len() ==> (#[trigger] answers[i]).parts.len() >= 2 && answers[i].parts[1]
            < 40 && answers[i].parts[0] * 40 + answers[i].parts[1] < 256
}

/// The text of the last answer for an object that has one.
pub open spec fn answered(answers: Seq<Answer>, parts: Seq<u32>) -> Option<Seq<char>>
    decreases answers.len(),
{
    if answers.len() == 0 {
        None
    } else {
        match answered(answers.drop_first(), parts) {
            Some(t) => Some(t),
            None => if answers[0].parts == parts {
                snmp::value_text(answers[0].tag, answers[0].value)
            } else {
                None
            },
        }
    }
}

/// A value stands in front of others.
proof fn lemma_expect(tag: u8, value: Seq<u8>, back: Seq<u8>)
    requires
        value.len() < 0x1_0000_0000,
    ensures
        ber::expect_spec(ber::tlv_spec(tag, value) + back, tag) == Some((value, back)),
        ber::tlv_spec(tag, value).len() > value.len(),
{
    ber::law_tlv_reads_back(tag, value, back);
}

/// Dotted forms tell identifiers apart.
proof fn lemma_keys_differ(a: Seq<u32>, b: Seq<u32>)
    requires
        a.len() > 0,
        b.len() > 0,
        a != b,
    ensures
        snmp::oid_key_spec(a) != snmp::oid_key_spec(b),
{
    let x = a.map_values(|p: u32| text::decimal_spec(p as nat));
    let y = b.map_values(|p: u32| text::decimal_spec(p as nat));
    reveal_strlit(".");
    assert("."@ =~= seq!['.']);
    assert forall|i: int| 0 <= i < x.len() implies !(#[trigger] x[i]).contains('.') by {
        text::law_decimal_reads_back(a[i] as nat);
        if x[i].contains('.') {
            text::lemma_digits_alone(x[i], '.');
        }
    }
    assert forall|i: int| 0 <= i < y.len() implies !(#[trigger] y[i]).contains('.') by {
        text::law_decimal_reads_back(b[i] as nat);
        if y[i].contains('.') {
            text::lemma_digits_alone(y[i], '.');
        }
    }
    text::law_split_undoes_join(x, '.');
    text::law_split_undoes_join(y, '.');
    if snmp::oid_key_spec(a) == snmp::oid_key_spec(b) {
        assert(x == y);
        assert forall|i: int| 0 <= i < a.len() implies a[i] == b[i] by {
            assert(x[i] == y[i]);
            text::law_decimal_reads_back(a[i] as nat);
            text::law_decimal_reads_back(b[i] as nat);
        }
        assert(a.len() == x.len() && b.len() == y.len());
        assert(a =~= b);
    }
}

/// The values after a list of answers.
proof fn lemma_answers(values: TextMapView, answers: Seq<Answer>, parts: Seq<u32>)
    requires
        readable(answers),
        parts.len() >= 2,
        answers_wire(answers).len() < 0x1_0000_0000,
    ensures
        snmp::with_varbinds(values, answers_wire(answers)) is Some,
        snmp::with_varbinds(values, answers_wire(answers))->0.get(snmp::oid_key_spec(parts)) == (
        match answered(answers, parts) {
            Some(t) => Some(t),
            None => values.get(snmp::oid_key_spec(parts)),
        }),
    decreases answers.len(),
{
    if answers.len() > 0 {
        let a = answers[0];
        let tail = answers.drop_first();
        let b = answers_wire(answers);
        let name = ber::oid_body(a.parts);
        let inner = ber::tlv_spec(0x06, name) + ber::tlv_spec(a.tag, a.value);
        let rest = answers_wire(tail);
        assert(readable(tail)) by {
            assert forall|i: int| 0 <= i < tail.len() implies (#[trigger] tail[i]).parts.len() >= 2
                && tail[i].parts[1] < 40 && tail[i].parts[0] * 40 + tail[i].parts[1] < 256 by {
                assert(tail[i] == answers[i + 1]);
            }
        }
        assert(ber::tlv_spec(0x30, inner).len() > inner.len());
        assert(ber::tlv_spec(0x06, name).len() > name.len());
        assert(ber::tlv_spec(a.tag, a.value).len() > a.value.len());
        lemma_expect(0x30, inner, rest);
        lemma_expect(0x06, name, ber::tlv_spec(a.tag, a.value));
        ber::law_tlv_reads_back(a.tag, a.value, seq![]);
        assert(ber::tlv_spec(a.tag, a.value) + Seq::<u8>::empty() =~= ber::tlv_spec(
            a.tag,
            a.value,
        ));
        assert(a.parts.len() >= 2 && a.parts[1] < 40 && a.parts[0] * 40 + a.parts[1] < 256);
        ber::law_oid_reads_back(a.parts);
        let key = snmp::oid_key_spec(a.parts);
        let want = snmp::oid_key_spec(parts);
        let between = match snmp::value_text(a.tag, a.value) {
            Some(t) => values.insert(key, t),
            None => values,
        };
        assert(snmp::with_varbinds(values, b) == snmp::with_varbinds(between, rest));
        lemma_answers(between, tail, parts);
        if snmp::value_text(a.tag, a.value) is Some {
            text_map::law_value_reads_back(
                values,
                key,
                snmp::value_text(a.tag, a.value)->0,
                want,
            );
            if a.parts != parts {
                lemma_keys_differ(a.parts, parts);
            }
        }
    }
}

/// A response gives its answers.
proof fn lemma_response(
    version: Seq<u8>,
    community: Seq<u8>,
    request: Seq<u8>,
    status: Seq<u8>,
    index: Seq<u8>,
    answers: Seq<Answer>,
)
    requires
        response_wire(version, community, request, status, index, answers).len() < 0x1_0000_0000,
    ensures
        snmp::response_varbinds(
            response_wire(version, community, request, status, index, answers),
        ) == (if snmp::has_nonzero(status) {
            None
        } else {
            Some(answers_wire(answers))
        }),
        answers_wire(answers).len() < 0x1_0000_0000,
{
    let none = Seq::<u8>::empty();
    let list = ber::tlv_spec(0x30, answers_wire(answers));
    let c = ber::tlv_spec(0x02, index) + list;
    let b = ber::tlv_spec(0x02, status) + c;
    let pdu = ber::tlv_spec(0x02, request) + b;
    let a2 = ber::tlv_spec(0xa2, pdu);
    let named = ber::tlv_spec(0x04, community) + a2;
    let message = ber::tlv_spec(0x02, version) + named;
    let whole = ber::tlv_spec(0x30, message);
    assert(whole.len() > message.len());
    assert(ber::tlv_spec(0x02, version).len() > version.len());
    assert(ber::tlv_spec(0x04, community).len() > community.len());
    assert(a2.len() > pdu.len());
    assert(ber::tlv_spec(0x02, request).len() > request.len());
    assert(ber::tlv_spec(0x02, status).len() > status.len());
    assert(ber::tlv_spec(0x02, index).len() > index.len());
    assert(list.len() > answers_wire(answers).len());
    lemma_expect(0x30, message, none);
    assert(whole + none =~= whole);
    lemma_expect(0x02, version, named);
    lemma_expect(0x04, community, a2);
    lemma_expect(0xa2, pdu, none);
    assert(a2 + none =~= a2);
    lemma_expect(0x02, request, b);
    lemma_expect(0x02, status, c);
    lemma_expect(0x02, index, list);
    lemma_expect(0x30, answers_wire(answers), none);
    assert(list + none =~= list);
}

/// Every object of the system group is read from the answer that carries its identifier,
/// whatever stands beside it and whoever was asked. A response that reports an error says
/// nothing.
pub proof fn law_system_group_reads_back(
    version: Seq<u8>,
    community: Seq<u8>,
    request: Seq<u8>,
    status: Seq<u8>,
    index: Seq<u8>,
    answers: Seq<Answer>,
)
    requires
        readable(answers),
        response_wire(version, community, request, status, index, answers).len() < 0x1_0000_0000,
    ensures
        ({
            let read = snmp::system_response_spec(
                response_wire(version, community, request, status, index, answers),
            );
            let descr = answered(answers, seq![1u32, 3, 6, 1, 2, 1, 1, 1, 0]);
            let object_id = answered(answers, seq![1u32, 3, 6, 1, 2, 1, 1, 2, 0]);
            let contact = answered(answers, seq![1u32, 3, 6, 1, 2, 1, 1, 4, 0]);
            let name = answered(answers, seq![1u32, 3, 6, 1, 2, 1, 1, 5, 0]);
            let location = answered(answers, seq![1u32, 3, 6, 1, 2, 1, 1, 6, 0]);
            &&& (exists|i: int| 0 <= i < status.len() && status[i] != 0) ==> read is None
            &&& (forall|i: int| 0 <= i < status.len() ==> status[i] == 0) && (descr is Some
                || object_id is Some || contact is Some || name is Some || location is Some)
                ==> read is Some
            &&& read is Some ==> read->0.sys_descr == descr
            &&& read is Some ==> read->0.sys_object_id == object_id
            &&& read is Some ==> read->0.sys_contact == contact
            &&& read is Some ==> read->0.sys_name == name
            &&& read is Some ==> read->0.sys_location == location
            &&& forall|v: u32|
                read is Some && answered(answers, seq![1u32, 3, 6, 1, 2, 1, 1, 7, 0]) == Some(
                    #[trigger] text::decimal_spec(v as nat),
                ) ==> read->0.sys_services == Some(v)
            &&& read is Some && answered(answers, seq![1u32, 3, 6, 1, 2, 1, 1, 7, 0]) is None
                ==> read->0.sys_services is None
        }),
{
    lemma_response(version, community, request, status, index, answers);
    let start = TextMapView { entries: seq![] };
    let descr = seq![1u32, 3, 6, 1, 2, 1, 1, 1, 0];
    let object_id = seq![1u32, 3, 6, 1, 2, 1, 1, 2, 0];
    let contact = seq![1u32, 3, 6, 1, 2, 1, 1, 4, 0];
    let name = seq![1u32, 3, 6, 1, 2, 1, 1, 5, 0];
    let location = seq![1u32, 3, 6, 1, 2, 1, 1, 6, 0];
    let services = seq![1u32, 3, 6, 1, 2, 1, 1, 7, 0];
    assert(snmp::SYS_DESCR_OID@ =~= descr);
    assert(snmp::SYS_OBJECT_ID_OID@ =~= object_id);
    assert(snmp::SYS_CONTACT_OID@ =~= contact);
    assert(snmp::SYS_NAME_OID@ =~= name);
    assert(snmp::SYS_LOCATION_OID@ =~= location);
    assert(snmp::SYS_SERVICES_OID@ =~= services);
    lemma_answers(start, answers, descr);
    lemma_answers(start, answers, object_id);
    lemma_answers(start, answers, contact);
    lemma_answers(start, answers, name);
    lemma_answers(start, answers, location);
    lemma_answers(start, answers, services);
    assert(start.get(snmp::oid_key_spec(descr)) is None);
    assert(start.get(snmp::oid_key_spec(object_id)) is None);
    assert(start.get(snmp::oid_key_spec(contact)) is None);
    assert(start.get(snmp::oid_key_spec(name)) is None);
    assert(start.get(snmp::oid_key_spec(location)) is None);
    assert(start.get(snmp::oid_key_spec(services)) is None);
    assert forall|v: u32|
        answered(answers, services) == Some(
            #[trigger] text::decimal_spec(v as nat),
        ) implies text::unsigned_value(text::decimal_spec(v as nat)) == Some(v as nat) by {
        text::law_decimal_reads_back(v as nat);
    }
}

/// Values are shown by what they are: a number in decimal, a text as it is, an identifier
/// with dots, an address by its octets, and nothing of any other kind.
pub proof fn law_values_are_shown(
    number: i64,
    words: Seq<char>,
    parts: Seq<u32>,
    octets: Seq<u8>,
    count: Seq<u8>,
    tag: u8,
    value: Seq<u8>,
)
    requires
        adverts::clean(words),
        parts.len() >= 2,
        parts[1] < 40,
        parts[0] * 40 + parts[1] < 256,
        octets.len() == 4,
        0 < count.len() <= 8,
    ensures
        snmp::value_text(0x02, ber::signed_bytes(number as int)) == Some(
            text::signed_decimal_spec(number as int),
        ),
        snmp::value_text(0x04, vstd::utf8::encode_utf8(words)) == Some(words),
        snmp::value_text(0x06, ber::oid_body(parts)) == Some(
            text::join_spec(
                parts.map_values(|p: u32| text::decimal_spec(p as nat)),
                seq!['.'],
            ),
        ),
        snmp::value_text(0x40, octets) == Some(adverts::four_octets(octets).text_spec()),
        0x41 <= tag <= 0x46 ==> snmp::value_text(tag, count) == Some(
            text::decimal_spec(ber::be_value(count)),
        ),
        tag < 0x02 || tag == 0x03 || tag == 0x05 || 0x06 < tag < 0x40 || tag > 0x46
            ==> snmp::value_text(tag, value) is None,
{
    ber::law_integer_reads_back(number as int);
    assert(text::signed_decimal_spec(number as int).len() > 0) by {
        text::law_decimal_reads_back(
            (if number < 0 {
                -number
            } else {
                number as int
            }) as nat,
        );
    }
    vstd::utf8::encode_utf8_valid_utf8(words);
    vstd::utf8::encode_utf8_decode_utf8(words);
    assert(text::trim_spec(words) == words);
    ber::law_oid_reads_back(parts);
    reveal_strlit(".");
    assert("."@ =~= seq!['.']);
    let x = parts.map_values(|p: u32| text::decimal_spec(p as nat));
    assert(x[0].len() > 0) by {
        text::law_decimal_reads_back(parts[0] as nat);
    }
    assert(text::join_spec(x, seq!['.']).len() > 0) by {
        lemma_join_len(x, seq!['.']);
    }
    let ip = adverts::four_octets(octets);
    assert(ip.text_spec().len() > 0) by {
        addr::law_address_text_reads_back(ip);
    }
    text::law_decimal_reads_back(ber::be_value(count));
}

/// Joined texts are longer than the first.
proof fn lemma_join_len(x: Seq<Seq<char>>, sep: Seq<char>)
    requires
        x.len() > 0,
        sep.len() > 0,
        x[0].len() > 0,
    ensures
        text::join_spec(x, sep).len() > 0,
    decreases x.len(),
{
    reveal_with_fuel(text::join_spec, 2);
    if x.len() > 1 {
        assert(x.drop_last()[0] == x[0]);
        lemma_join_len(x.drop_last(), sep);
    }
}

/// A request asks for the six objects of the system group, each with an empty value, in
/// the second version of the protocol.
pub proof fn law_system_request_asks_for_the_group(community: Seq<char>, request: i32)
    ensures
        snmp::get_request_spec(request, community, snmp::system_oids_spec()) == ber::tlv_spec(
            0x30,
            seq![0x02u8, 0x01u8, 0x01u8] + ber::tlv_spec(0x04, vstd::utf8::encode_utf8(community))
                + ber::tlv_spec(
                0xa0,
                ber::tlv_spec(0x02, ber::signed_bytes(request as int)) + seq![
                    0x02u8,
                    0x01u8,
                    0x00u8,
                ] + seq![0x02u8, 0x01u8, 0x00u8] + ber::tlv_spec(
                    0x30,
                    answers_wire(
                        seq![1u32, 2, 4, 5, 6, 7].map_values(
                            |n: u32|
                                Answer {
                                    parts: seq![1u32, 3, 6, 1, 2, 1, 1, n, 0],
                                    tag: 0x05,
                                    value: seq![],
                                },
                        ),
                    ),
                ),
            ),
        ),
{
    let number = |v: int| ber::tlv_spec(0x02, ber::signed_bytes(v));
    assert(number(0) =~= seq![0x02u8, 0x01u8, 0x00u8]);
    assert(number(1) =~= seq![0x02u8, 0x01u8, 0x01u8]);
    let f = |n: u32|
        Answer { parts: seq![1u32, 3, 6, 1, 2, 1, 1, n, 0], tag: 0x05, value: seq![] };
    let all = seq![1u32, 2, 4, 5, 6, 7].map_values(f);
    let oids = snmp::system_oids_spec();
    assert(oids =~~= all.map_values(|a: Answer| a.parts));
    lemma_questions(all);
}

/// Questions are answers without values.
proof fn lemma_questions(answers: Seq<Answer>)
    requires
        forall|i: int|
            0 <= i < answers.len() ==> (#[trigger] answers[i]).tag == 0x05 && answers[i].value
                == Seq::<u8>::empty(),
    ensures
        snmp::varbinds_bytes(answers.map_values(|a: Answer| a.parts)) == answers_wire(answers),
    decreases answers.len(),
{
    let oids = answers.map_values(|a: Answer| a.parts);
    if answers.len() > 0 {
        let front = answers.drop_last();
        lemma_questions(front);
        assert(oids.drop_last() =~= front.map_values(|a: Answer| a.parts));
        lemma_answers_wire(answers);
        assert(answers[answers.len() - 1].tag == 0x05);
    }
}

/// Answers can be taken from the end.
proof fn lemma_answers_wire(answers: Seq<Answer>)
    requires
        answers.len() > 0,
    ensures
        answers_wire(answers) == answers_wire(answers.drop_last()) + answer_wire(answers.last()),
    decreases answers.len(),
{
    reveal_with_fuel(answers_wire, 2);
    let none = Seq::<u8>::empty();
    if answers.len() == 1 {
        assert(answers.drop_last() =~= seq![]);
        assert(answers.drop_first() =~= seq![]);
        assert(answers_wire(answers) =~= none + answer_wire(answers.last()));
    } else {
        let tail = answers.drop_first();
        lemma_answers_wire(tail);
        assert(tail.drop_last() =~= answers.drop_last().drop_first());
        assert(tail.last() == answers.last());
        assert(answers_wire(answers) =~= answer_wire(answers[0]) + answers_wire(tail.drop_last())
            + answer_wire(answers.last()));
    }
}

} // verus!
