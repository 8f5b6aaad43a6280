//! How a device weighs what it is told.

use crate::model::{
    Confidence, DeviceView, EvidenceView, GuessView, NameEvidenceView, ServiceEvidenceView,
};
use crate::model;
use crate::text::laws;
use crate::text;
use vstd::prelude::*;

verus! {

/// Of two guesses the more confident one counts, and of two that are just as confident
/// the first; a blank one never does.
pub proof fn law_more_confident_guess_counts(
    held: GuessView,
    value: Seq<char>,
    source: Seq<char>,
    confidence: Confidence,
)
    ensures
        ({
            let new = GuessView { value, source, confidence };
            let after = model::best_guess(Some(held), value, source, confidence);
            &&& model::blank(value) ==> after == Some(held)
            &&& !model::blank(value) && confidence > held.confidence ==> after == Some(new)
            &&& confidence <= held.confidence ==> after == Some(held)
            &&& !model::blank(value) ==> model::best_guess(None, value, source, confidence) == Some(
                new,
            )
            &&& model::blank(value) ==> model::best_guess(None, value, source, confidence) is None
        }),
{
}

/// Each candidate goes to its own guess: a maker, a model, a system, or a type. Nothing
/// else changes.
pub proof fn law_candidates_go_to_their_guess(
    d: DeviceView,
    value: Seq<char>,
    source: Seq<char>,
    confidence: Confidence,
)
    ensures
        d.set_make(value, source, confidence) == (DeviceView {
            make: model::best_guess(d.make, value, source, confidence),
            ..d
        }),
        d.set_model(value, source, confidence) == (DeviceView {
            model: model::best_guess(d.model, value, source, confidence),
            ..d
        }),
        d.set_os(value, source, confidence) == (DeviceView {
            os: model::best_guess(d.os, value, source, confidence),
            ..d
        }),
        d.set_device_type(value, source, confidence) == (DeviceView {
            device_type: model::best_guess(d.device_type, value, source, confidence),
            ..d
        }),
{
    reveal(DeviceView::set_make);
    reveal(DeviceView::set_model);
    reveal(DeviceView::set_os);
    reveal(DeviceView::set_device_type);
}

/// A new fact is added behind the others as it was told, and a new service is; one that
/// is known or blank changes nothing. Nothing else changes.
pub proof fn law_new_facts_are_added(
    d: DeviceView,
    source: Seq<char>,
    key: Seq<char>,
    value: Seq<char>,
    port: Option<u16>,
    confidence: Confidence,
)
    ensures
        ({
            let known = exists|i: int|
                0 <= i < d.evidence.len() && (#[trigger] d.evidence[i]).source == source
                    && d.evidence[i].key == key && d.evidence[i].value == value;
            let after = d.add_evidence(source, key, value, confidence);
            &&& known || model::blank(value) ==> after == d
            &&& !known && !model::blank(value) ==> after == (DeviceView {
                evidence: d.evidence + seq![EvidenceView { source, key, value, confidence }],
                ..d
            })
        }),
        ({
            let known = exists|i: int|
                0 <= i < d.services.len() && (#[trigger] d.services[i]).name == value
                    && d.services[i].source == source && d.services[i].port == port;
            let after = d.add_service(value, source, port, confidence);
            &&& known || model::blank(value) ==> after == d
            &&& !known && !model::blank(value) ==> after == (DeviceView {
                services: d.services + seq![
                    ServiceEvidenceView { name: value, source, port, confidence },
                ],
                ..d
            })
        }),
{
    reveal(DeviceView::add_evidence);
    reveal(DeviceView::add_service);
    assert(d.evidence.push(EvidenceView { source, key, value, confidence }) =~= d.evidence + seq![
        EvidenceView { source, key, value, confidence },
    ]);
    assert(d.services.push(ServiceEvidenceView { name: value, source, port, confidence })
        =~= d.services + seq![ServiceEvidenceView { name: value, source, port, confidence }]);
}

/// A name that reads as it is: without white space around it, without a dot behind it, and
/// without a local suffix.
pub open spec fn compact(label: Seq<char>) -> bool {
    &&& label.len() > 0
    &&& laws::edged(label)
    &&& label.last() != '.'
    &&& !text::ends_with_spec(label, ".local"@)
    &&& !text::ends_with_spec(label, ".lan"@)
}

/// The label of a name is the name without white space around it, a dot behind it, and a
/// local suffix.
pub proof fn law_labels_are_compact(label: Seq<char>)
    requires
        compact(label),
    ensures
        model::normalize_name_spec(label) == label,
        model::normalize_name_spec(label + seq!['.']) == label,
        model::normalize_name_spec(label + ".local"@) == label,
        model::normalize_name_spec(label + ".local"@ + seq!['.']) == label,
        model::normalize_name_spec(label + ".lan"@) == label,
        model::normalize_name_spec(seq![' '] + label + seq![' ']) == label,
{
    let none = Seq::<char>::empty();
    let local = ".local"@;
    let lan = ".lan"@;
    reveal_strlit(".local");
    reveal_strlit(".lan");
    assert(laws::blank(none));
    assert(laws::blank(seq![' ']));
    laws::law_trimming_takes_the_white_space_around(none, label, none);
    assert(none + label + none =~= label);
    laws::law_trimming_takes_the_white_space_around(seq![' '], label, seq![' ']);
    let dotted = label + seq!['.'];
    laws::law_trimming_takes_the_white_space_around(none, dotted, none);
    assert(none + dotted + none =~= dotted);
    lemma_dot(label);
    let a = label + local;
    assert(a.last() == 'l');
    laws::law_trimming_takes_the_white_space_around(none, a, none);
    assert(none + a + none =~= a);
    let b = a + seq!['.'];
    laws::law_trimming_takes_the_white_space_around(none, b, none);
    assert(none + b + none =~= b);
    lemma_dot(a);
    lemma_suffix(label, local);
    let c = label + lan;
    assert(c.last() == 'n');
    laws::law_trimming_takes_the_white_space_around(none, c, none);
    assert(none + c + none =~= c);
    lemma_suffix(label, lan);
    assert(!text::ends_with_spec(c, local)) by {
        if text::ends_with_spec(c, local) {
            assert(c.skip(c.len() - local.len()).last() == c.last());
        }
    }
    reveal_with_fuel(text::trim_end_text_spec, 2);
}

/// A dot behind a text.
proof fn lemma_dot(s: Seq<char>)
    requires
        s.len() > 0,
        s.last() != '.',
    ensures
        text::trim_end_char_spec(s + seq!['.'], '.') == s,
        text::trim_end_char_spec(s, '.') == s,
{
    reveal_with_fuel(text::trim_end_char_spec, 2);
    assert((s + seq!['.']).drop_last() =~= s);
}

/// A suffix behind a text.
proof fn lemma_suffix(s: Seq<char>, p: Seq<char>)
    requires
        p.len() > 0,
        !text::ends_with_spec(s, p),
    ensures
        text::trim_end_text_spec(s + p, p) == s,
        text::trim_end_text_spec(s, p) == s,
{
    reveal_with_fuel(text::trim_end_text_spec, 2);
    laws::law_texts_contain_their_parts(s, p, seq![]);
    assert((s + p).take((s + p).len() - p.len()) =~= s);
}

/// The label of a device is one of its names: none of them is more confident, and none
/// that is just as confident is shorter.
pub proof fn law_label_is_the_strongest_name(names: Seq<NameEvidenceView>, i: int)
    requires
        0 <= i < names.len(),
    ensures
        exists|best: NameEvidenceView|
            #![trigger names.contains(best)]
            names.contains(best) && model::strongest_name(names) == Some(best.name)
                && names[i].confidence <= best.confidence && (names[i].confidence
                == best.confidence ==> model::byte_length(best.name) <= model::byte_length(
                names[i].name,
            )),
{
    model::law_strongest_name_leads(names);
    let best = model::strongest(names)->0;
    assert(names.contains(best));
    assert(!model::name_ahead(names[i], best));
}

/// A name is added behind the others as it was told, by its label, unless its source has
/// told it before; the label of the device is then the strongest name. Nothing else
/// changes.
pub proof fn law_new_names_are_added(
    d: DeviceView,
    name: Seq<char>,
    source: Seq<char>,
    confidence: Confidence,
)
    ensures
        ({
            let label = model::normalize_name_spec(name);
            let known = exists|i: int|
                0 <= i < d.names.len() && text::lower_spec((#[trigger] d.names[i]).name)
                    == text::lower_spec(label) && d.names[i].source == source;
            let after = d.add_name(name, source, confidence);
            &&& label.len() == 0 ==> after == d
            &&& label.len() > 0 && known ==> after.names == d.names
            &&& label.len() > 0 && !known ==> after.names == d.names + seq![
                NameEvidenceView { name: label, source, confidence },
            ]
            &&& label.len() > 0 ==> after.hostname == model::strongest_name(after.names)
            &&& after == (DeviceView { names: after.names, hostname: after.hostname, ..d })
        }),
{
    reveal(DeviceView::add_name);
    let label = model::normalize_name_spec(name);
    assert(d.names.push(NameEvidenceView { name: label, source, confidence }) =~= d.names + seq![
        NameEvidenceView { name: label, source, confidence },
    ]);
}

} // verus!
