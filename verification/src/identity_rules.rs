//! Built-in identity rule engine.
//!
//! Rules consume normalized observations from every collector and write
//! confidence-scored guesses back to the device. The rule engine never deletes raw
//! evidence, so classification remains explainable in exports and future
//! site-specific rules can be added without changing probe code.

pub mod builtin;

use crate::model::{
    is_blank, Confidence, Device, DeviceView, EvidenceView, Guess, GuessView, NameEvidenceView,
    ServiceEvidenceView,
};
use crate::model;
use crate::sort::{sorted, SortOrder};
use crate::sort;
use crate::text::{chars, contains, decimal, lower, owned, same, str_eq, text};
use crate::text;
use vstd::prelude::*;

verus! {

/// One fact in the shape that rules match.
#[derive(Debug, PartialEq, Eq)]
pub struct Observation {
    pub source: String,
    pub key: String,
    pub value: String,
    pub confidence: Confidence,
}

/// The mathematical content of a [`Observation`].
#[verifier::ext_equal]
pub struct ObservationView {
    pub source: Seq<char>,
    pub key: Seq<char>,
    pub value: Seq<char>,
    pub confidence: Confidence,
}

impl View for Observation {
    type V = ObservationView;

    open spec fn view(&self) -> ObservationView {
        ObservationView {
            source: self.source@,
            key: self.key@,
            value: self.value@,
            confidence: self.confidence,
        }
    }
}

impl DeepView for Observation {
    type V = ObservationView;

    open spec fn deep_view(&self) -> ObservationView {
        self@
    }
}

impl Clone for Observation {
    fn clone(&self) -> (r: Self)
        ensures
            r@ == self@,
    {
        let r = Observation {
            source: self.source.clone(),
            key: self.key.clone(),
            value: self.value.clone(),
            confidence: self.confidence,
        };
        r
    }
}

/// A condition that one observation has to meet.
#[derive(Debug, PartialEq, Eq)]
pub struct RuleMatch {
    pub source: Option<String>,
    pub key: String,
    pub equals: Option<String>,
    pub contains: Option<String>,
    pub any_of: Vec<String>,
    pub confidence_min: Option<Confidence>,
}

/// The mathematical content of a [`RuleMatch`].
#[verifier::ext_equal]
pub struct RuleMatchView {
    pub source: Option<Seq<char>>,
    pub key: Seq<char>,
    pub equals: Option<Seq<char>>,
    pub contains: Option<Seq<char>>,
    pub any_of: Seq<Seq<char>>,
    pub confidence_min: Option<Confidence>,
}

impl View for RuleMatch {
    type V = RuleMatchView;

    open spec fn view(&self) -> RuleMatchView {
        RuleMatchView {
            source: self.source.deep_view(),
            key: self.key@,
            equals: self.equals.deep_view(),
            contains: self.contains.deep_view(),
            any_of: self.any_of.deep_view(),
            confidence_min: self.confidence_min,
        }
    }
}

impl DeepView for RuleMatch {
    type V = RuleMatchView;

    open spec fn deep_view(&self) -> RuleMatchView {
        self@
    }
}

impl Clone for RuleMatch {
    fn clone(&self) -> (r: Self)
        ensures
            r@ == self@,
    {
        let r = RuleMatch {
            source: self.source.clone(),
            key: self.key.clone(),
            equals: self.equals.clone(),
            contains: self.contains.clone(),
            any_of: self.any_of.clone(),
            confidence_min: self.confidence_min,
        };
        proof {
            assert(r.source.deep_view() =~= self.source.deep_view());
            assert(r.equals.deep_view() =~= self.equals.deep_view());
            assert(r.contains.deep_view() =~= self.contains.deep_view());
            assert(r.any_of.deep_view() =~= self.any_of.deep_view());
        }
        r
    }
}

/// The guesses that a rule makes.
#[derive(Debug, PartialEq, Eq)]
pub struct RuleOutput {
    pub make: Option<String>,
    pub model: Option<String>,
    pub os: Option<String>,
    pub device_type: Option<String>,
}

/// The mathematical content of a [`RuleOutput`].
#[verifier::ext_equal]
pub struct RuleOutputView {
    pub make: Option<Seq<char>>,
    pub model: Option<Seq<char>>,
    pub os: Option<Seq<char>>,
    pub device_type: Option<Seq<char>>,
}

impl View for RuleOutput {
    type V = RuleOutputView;

    open spec fn view(&self) -> RuleOutputView {
        RuleOutputView {
            make: self.make.deep_view(),
            model: self.model.deep_view(),
            os: self.os.deep_view(),
            device_type: self.device_type.deep_view(),
        }
    }
}

impl DeepView for RuleOutput {
    type V = RuleOutputView;

    open spec fn deep_view(&self) -> RuleOutputView {
        self@
    }
}

impl Clone for RuleOutput {
    fn clone(&self) -> (r: Self)
        ensures
            r@ == self@,
    {
        let r = RuleOutput {
            make: self.make.clone(),
            model: self.model.clone(),
            os: self.os.clone(),
            device_type: self.device_type.clone(),
        };
        proof {
            assert(r.make.deep_view() =~= self.make.deep_view());
            assert(r.model.deep_view() =~= self.model.deep_view());
            assert(r.os.deep_view() =~= self.os.deep_view());
            assert(r.device_type.deep_view() =~= self.device_type.deep_view());
        }
        r
    }
}

impl Default for RuleOutput {
    fn default() -> (r: Self)
        ensures
            r@ == (RuleOutputView {
                make: None,
                model: None,
                os: None,
                device_type: None,
            }),
    {
        let r = RuleOutput {
            make: None,
            model: None,
            os: None,
            device_type: None,
        };
        proof {
        }
        r
    }
}

/// A rule: where every condition is met, the guesses are made.
#[derive(Debug, PartialEq, Eq)]
pub struct IdentityRule {
    pub id: String,
    pub priority: i32,
    pub confidence: Confidence,
    pub conditions: Vec<RuleMatch>,
    pub set: RuleOutput,
}

/// The mathematical content of a [`IdentityRule`].
#[verifier::ext_equal]
pub struct IdentityRuleView {
    pub id: Seq<char>,
    pub priority: i32,
    pub confidence: Confidence,
    pub conditions: Seq<RuleMatchView>,
    pub set: RuleOutputView,
}

impl View for IdentityRule {
    type V = IdentityRuleView;

    open spec fn view(&self) -> IdentityRuleView {
        IdentityRuleView {
            id: self.id@,
            priority: self.priority,
            confidence: self.confidence,
            conditions: self.conditions.deep_view(),
            set: self.set@,
        }
    }
}

impl DeepView for IdentityRule {
    type V = IdentityRuleView;

    open spec fn deep_view(&self) -> IdentityRuleView {
        self@
    }
}

impl Clone for IdentityRule {
    fn clone(&self) -> (r: Self)
        ensures
            r@ == self@,
    {
        let r = IdentityRule {
            id: self.id.clone(),
            priority: self.priority,
            confidence: self.confidence,
            conditions: self.conditions.clone(),
            set: self.set.clone(),
        };
        proof {
            assert(r.conditions.deep_view() =~= self.conditions.deep_view());
        }
        r
    }
}

/// The rules, in the order in which they are applied.
#[derive(Debug, PartialEq, Eq)]
pub struct RuleDb {
    pub rules: Vec<IdentityRule>,
}

/// The mathematical content of a [`RuleDb`].
#[verifier::ext_equal]
pub struct RuleDbView {
    pub rules: Seq<IdentityRuleView>,
}

impl View for RuleDb {
    type V = RuleDbView;

    open spec fn view(&self) -> RuleDbView {
        RuleDbView {
            rules: self.rules.deep_view(),
        }
    }
}

impl DeepView for RuleDb {
    type V = RuleDbView;

    open spec fn deep_view(&self) -> RuleDbView {
        self@
    }
}

impl Clone for RuleDb {
    fn clone(&self) -> (r: Self)
        ensures
            r@ == self@,
    {
        let r = RuleDb {
            rules: self.rules.clone(),
        };
        proof {
            assert(r.rules.deep_view() =~= self.rules.deep_view());
        }
        r
    }
}

impl Default for RuleDb {
    fn default() -> (r: Self)
        ensures
            r@ == (RuleDbView {
                rules: seq![],
            }),
    {
        let r = RuleDb {
            rules: Vec::new(),
        };
        proof {
            assert(r.rules.deep_view() =~= seq![]);
        }
        r
    }
}

/// The observations with one more, unless its value is blank.
pub open spec fn observed(
    all: Seq<ObservationView>,
    source: Seq<char>,
    key: Seq<char>,
    value: Seq<char>,
    confidence: Confidence,
) -> Seq<ObservationView> {
    if model::blank(value) {
        all
    } else {
        all.push(ObservationView { source, key, value, confidence })
    }
}

/// The observations with a guess, unless there is none or a rule made it. A derived
/// guess does not satisfy another rule as if it were a direct protocol observation.
pub open spec fn observed_guess(
    all: Seq<ObservationView>,
    key: Seq<char>,
    guess: Option<GuessView>,
) -> Seq<ObservationView> {
    match guess {
        Some(g) => if g.source == "identity_rule"@ {
            all
        } else {
            observed(all, g.source, key, g.value, g.confidence)
        },
        None => all,
    }
}

/// The observations with several names.
pub open spec fn observed_names(
    all: Seq<ObservationView>,
    names: Seq<NameEvidenceView>,
) -> Seq<ObservationView>
    decreases names.len(),
{
    if names.len() == 0 {
        all
    } else {
        let n = names.last();
        observed(observed_names(all, names.drop_last()), n.source, "name"@, n.name, n.confidence)
    }
}

/// The observations with several services, each followed by its port.
pub open spec fn observed_services(
    all: Seq<ObservationView>,
    services: Seq<ServiceEvidenceView>,
) -> Seq<ObservationView>
    decreases services.len(),
{
    if services.len() == 0 {
        all
    } else {
        let s = services.last();
        let all = observed(
            observed_services(all, services.drop_last()),
            s.source,
            "service"@,
            s.name,
            s.confidence,
        );
        match s.port {
            Some(port) => observed(
                all,
                s.source,
                "port"@,
                text::decimal_spec(port as nat),
                s.confidence,
            ),
            None => all,
        }
    }
}

/// The observations with several raw facts.
pub open spec fn observed_evidence(
    all: Seq<ObservationView>,
    facts: Seq<EvidenceView>,
) -> Seq<ObservationView>
    decreases facts.len(),
{
    if facts.len() == 0 {
        all
    } else {
        let e = facts.last();
        observed(
            observed_evidence(all, facts.drop_last()),
            e.source,
            e.key,
            e.value,
            e.confidence,
        )
    }
}

/// Everything that is observed of a device.
pub open spec fn observations_spec(d: DeviceView) -> Seq<ObservationView> {
    let all = match d.vendor {
        Some(vendor) => observed(seq![], "oui"@, "vendor"@, vendor, 55),
        None => seq![],
    };
    let all = observed_names(all, d.names);
    let all = observed_guess(all, "make"@, d.make);
    let all = observed_guess(all, "model"@, d.model);
    let all = observed_guess(all, "os"@, d.os);
    let all = observed_guess(all, "device_type"@, d.device_type);
    let all = observed_services(all, d.services);
    observed_evidence(all, d.evidence)
}

/// Adds an observation unless its value is blank.
fn push(
    all: &mut Vec<Observation>,
    source: &str,
    key: &str,
    value: &str,
    confidence: Confidence,
)
    ensures
        final(all).deep_view() == observed(
            old(all).deep_view(),
            source@,
            key@,
            value@,
            confidence,
        ),
{
    if !is_blank(value) {
        let ghost before = all.deep_view();
        let o = Observation {
            source: owned(source),
            key: owned(key),
            value: owned(value),
            confidence,
        };
        let ghost view = o@;
        all.push(o);
        proof {
            assert(all.deep_view() =~= before.push(view));
        }
    }
}

/// Adds a guess, unless a rule made it.
fn push_guess(all: &mut Vec<Observation>, key: &str, guess: &Option<Guess>)
    ensures
        final(all).deep_view() == observed_guess(old(all).deep_view(), key@, guess.deep_view()),
{
    match guess {
        Some(g) => {
            if !str_eq(g.source.as_str(), "identity_rule") {
                push(all, g.source.as_str(), key, g.value.as_str(), g.confidence);
            }
        },
        None => {},
    }
}

/// Normalizes what is known of a device into one shape. This keeps the rules simple
/// across protocols: "model contains BRAVIA" can match UPnP or mDNS alike.
pub fn observations_for_device(device: &Device) -> (r: Vec<Observation>)
    ensures
        r.deep_view() == observations_spec(device@),
{
    let mut all: Vec<Observation> = Vec::new();
    proof {
        assert(all.deep_view() =~= seq![]);
    }
    match &device.vendor {
        Some(vendor) => push(&mut all, "oui", "vendor", vendor.as_str(), 55),
        None => {},
    }
    let ghost start = all.deep_view();
    let ghost names = device.names.deep_view();
    let mut i: usize = 0;
    while i < device.names.len()
        invariant
            i <= device.names@.len(),
            names == device.names.deep_view(),
            all.deep_view() == observed_names(start, names.take(i as int)),
        decreases device.names@.len() - i,
    {
        proof {
            assert(names.take(i + 1).drop_last() =~= names.take(i as int));
            assert(names.take(i + 1).last() == device.names@[i as int]@);
        }
        let n = &device.names[i];
        push(&mut all, n.source.as_str(), "name", n.name.as_str(), n.confidence);
        i = i + 1;
    }
    proof {
        assert(names.take(i as int) =~= names);
    }
    push_guess(&mut all, "make", &device.make);
    push_guess(&mut all, "model", &device.model);
    push_guess(&mut all, "os", &device.os);
    push_guess(&mut all, "device_type", &device.device_type);
    let ghost start = all.deep_view();
    let ghost services = device.services.deep_view();
    let mut i: usize = 0;
    while i < device.services.len()
        invariant
            i <= device.services@.len(),
            services == device.services.deep_view(),
            all.deep_view() == observed_services(start, services.take(i as int)),
        decreases device.services@.len() - i,
    {
        proof {
            assert(services.take(i + 1).drop_last() =~= services.take(i as int));
            assert(services.take(i + 1).last() == device.services@[i as int]@);
        }
        let s = &device.services[i];
        push(&mut all, s.source.as_str(), "service", s.name.as_str(), s.confidence);
        match s.port {
            Some(port) => push(
                &mut all,
                s.source.as_str(),
                "port",
                decimal(port as u64).as_str(),
                s.confidence,
            ),
            None => {},
        }
        i = i + 1;
    }
    proof {
        assert(services.take(i as int) =~= services);
    }
    let ghost start = all.deep_view();
    let ghost facts = device.evidence.deep_view();
    let mut i: usize = 0;
    while i < device.evidence.len()
        invariant
            i <= device.evidence@.len(),
            facts == device.evidence.deep_view(),
            all.deep_view() == observed_evidence(start, facts.take(i as int)),
        decreases device.evidence@.len() - i,
    {
        proof {
            assert(facts.take(i + 1).drop_last() =~= facts.take(i as int));
            assert(facts.take(i + 1).last() == device.evidence@[i as int]@);
        }
        let e = &device.evidence[i];
        push(&mut all, e.source.as_str(), e.key.as_str(), e.value.as_str(), e.confidence);
        i = i + 1;
    }
    proof {
        assert(facts.take(i as int) =~= facts);
    }
    all
}

/// One of the words occurs in the text, up to the case of ASCII letters.
pub open spec fn any_occurs(words: Seq<Seq<char>>, low: Seq<char>) -> bool {
    exists|i: int| 0 <= i < words.len() && text::contains_spec(low, text::lower_spec(#[trigger] words[i]))
}

impl RuleMatchView {
    /// One observation meets the condition: the key, the source and the confidence
    /// floor where they are given, and the value. An exact value stands for every
    /// other test of the value.
    pub open spec fn met_by(self, o: ObservationView) -> bool {
        let low = text::lower_spec(o.value);
        &&& o.key == self.key
        &&& self.source matches Some(source) ==> o.source == source
        &&& self.confidence_min matches Some(least) ==> o.confidence >= least
        &&& match self.equals {
            Some(expected) => low == text::lower_spec(expected),
            None => {
                &&& self.contains matches Some(needle) ==> text::contains_spec(low, text::lower_spec(needle))
                &&& self.any_of.len() == 0 || any_occurs(self.any_of, low)
            },
        }
    }

    /// Some observation meets the condition.
    pub open spec fn met(self, all: Seq<ObservationView>) -> bool {
        exists|i: int| 0 <= i < all.len() && self.met_by(#[trigger] all[i])
    }
}

/// Reports whether a word occurs in a text that is in lower case already.
fn occurs(low: &[char], word: &str) -> (r: bool)
    ensures
        r == text::contains_spec(low@, text::lower_spec(word@)),
{
    contains(low, text(lower(chars(word).as_slice()).as_slice()).as_str())
}

/// Reports whether one of the words occurs in a text that is in lower case already.
fn any_of_occurs(words: &Vec<String>, low: &[char]) -> (r: bool)
    ensures
        r == any_occurs(words.deep_view(), low@),
{
    let ghost views = words.deep_view();
    let mut i: usize = 0;
    while i < words.len()
        invariant
            i <= words@.len(),
            views == words.deep_view(),
            forall|k: int| 0 <= k < i ==> !text::contains_spec(low@, text::lower_spec(#[trigger] views[k])),
        decreases words@.len() - i,
    {
        proof {
            assert(views[i as int] == words@[i as int]@);
        }
        if occurs(low, words[i].as_str()) {
            return true;
        }
        i = i + 1;
    }
    false
}

impl RuleMatch {
    /// Reports whether one observation meets the condition.
    fn matches_one(&self, o: &Observation) -> (r: bool)
        ensures
            r == self@.met_by(o@),
    {
        if !str_eq(o.key.as_str(), self.key.as_str()) {
            return false;
        }
        match &self.source {
            Some(source) => {
                if !str_eq(o.source.as_str(), source.as_str()) {
                    return false;
                }
            },
            None => {},
        }
        match self.confidence_min {
            Some(least) => {
                if o.confidence < least {
                    return false;
                }
            },
            None => {},
        }
        let low = lower(chars(o.value.as_str()).as_slice());
        match &self.equals {
            Some(expected) => {
                return same(
                    low.as_slice(),
                    lower(chars(expected.as_str()).as_slice()).as_slice(),
                );
            },
            None => {},
        }
        match &self.contains {
            Some(needle) => {
                if !occurs(low.as_slice(), needle.as_str()) {
                    return false;
                }
            },
            None => {},
        }
        if self.any_of.len() == 0 {
            return true;
        }
        any_of_occurs(&self.any_of, low.as_slice())
    }

    /// Reports whether some observation meets the condition.
    pub fn matches(&self, all: &Vec<Observation>) -> (r: bool)
        ensures
            r == self@.met(all.deep_view()),
    {
        let ghost views = all.deep_view();
        let mut i: usize = 0;
        while i < all.len()
            invariant
                i <= all@.len(),
                views == all.deep_view(),
                forall|k: int| 0 <= k < i ==> !self@.met_by(#[trigger] views[k]),
            decreases all@.len() - i,
        {
            proof {
                assert(views[i as int] == all@[i as int]@);
            }
            if self.matches_one(&all[i]) {
                return true;
            }
            i = i + 1;
        }
        false
    }
}

impl IdentityRuleView {
    /// The rule has conditions, and every one of them is met.
    pub open spec fn fires(self, all: Seq<ObservationView>) -> bool {
        self.conditions.len() > 0 && forall|i: int|
            0 <= i < self.conditions.len() ==> (#[trigger] self.conditions[i]).met(all)
    }

    /// The device after the rule fired: the guesses by confidence, and a fact that
    /// says so.
    #[verifier::opaque]
    pub open spec fn applied_to(self, d: DeviceView) -> DeviceView {
        let source = "identity_rule"@;
        let d = match self.set.make {
            Some(v) => d.set_make(v, source, self.confidence),
            None => d,
        };
        let d = match self.set.model {
            Some(v) => d.set_model(v, source, self.confidence),
            None => d,
        };
        let d = match self.set.os {
            Some(v) => d.set_os(v, source, self.confidence),
            None => d,
        };
        let d = match self.set.device_type {
            Some(v) => d.set_device_type(v, source, self.confidence),
            None => d,
        };
        d.add_evidence(source, "rule"@, self.id, self.confidence)
    }
}

/// The device after the rules that fire on the observations.
pub open spec fn ruled(
    d: DeviceView,
    rules: Seq<IdentityRuleView>,
    all: Seq<ObservationView>,
) -> DeviceView
    decreases rules.len(),
{
    if rules.len() == 0 {
        d
    } else {
        let d = ruled(d, rules.drop_last(), all);
        if rules.last().fires(all) {
            rules.last().applied_to(d)
        } else {
            d
        }
    }
}

/// The device after the rules, which look at it as it was before any of them.
pub open spec fn identity_rules_spec(d: DeviceView, db: RuleDbView) -> DeviceView {
    ruled(d, db.rules, observations_spec(d))
}

impl IdentityRule {
    /// Reports whether the rule fires.
    fn fires(&self, all: &Vec<Observation>) -> (r: bool)
        ensures
            r == self@.fires(all.deep_view()),
    {
        if self.conditions.len() == 0 {
            return false;
        }
        let ghost views = self.conditions.deep_view();
        let mut i: usize = 0;
        while i < self.conditions.len()
            invariant
                i <= self.conditions@.len(),
                views == self.conditions.deep_view(),
                forall|k: int| 0 <= k < i ==> (#[trigger] views[k]).met(all.deep_view()),
            decreases self.conditions@.len() - i,
        {
            proof {
                assert(views[i as int] == self.conditions@[i as int]@);
            }
            if !self.conditions[i].matches(all) {
                return false;
            }
            i = i + 1;
        }
        true
    }

    /// Makes the guesses of the rule.
    fn apply_to(&self, device: &mut Device)
        ensures
            final(device)@ == self@.applied_to(old(device)@),
            old(device)@.extended_by(final(device)@),
    {
        broadcast use {crate::model::lemma_extended_refl, crate::model::lemma_extended_trans};

        proof {
            reveal(IdentityRuleView::applied_to);
        }
        let source = "identity_rule";
        match &self.set.make {
            Some(v) => device.set_make_guess(v.as_str(), source, self.confidence),
            None => {},
        }
        match &self.set.model {
            Some(v) => device.set_model_guess(v.as_str(), source, self.confidence),
            None => {},
        }
        match &self.set.os {
            Some(v) => device.set_os_guess(v.as_str(), source, self.confidence),
            None => {},
        }
        match &self.set.device_type {
            Some(v) => device.set_device_type_guess(v.as_str(), source, self.confidence),
            None => {},
        }
        device.add_evidence(source, "rule", self.id.as_str(), self.confidence);
    }
}

/// Applies the rules to a device. Rules never erase raw observations: they write best
/// guesses with a confidence, so one can see why a row became "tv" or "Windows".
pub fn apply_identity_rules(device: &mut Device, db: &RuleDb)
    ensures
        final(device)@ == identity_rules_spec(old(device)@, db@),
        old(device)@.extended_by(final(device)@),
{
    broadcast use crate::model::lemma_extended_refl;

    let all = observations_for_device(device);
    let ghost rules = db.rules.deep_view();
    let ghost start = device@;
    let ghost seen = all.deep_view();
    let mut i: usize = 0;
    while i < db.rules.len()
        invariant
            i <= db.rules@.len(),
            rules == db.rules.deep_view(),
            seen == all.deep_view(),
            start.extended_by(device@),
            device@ == ruled(start, rules.take(i as int), seen),
        decreases db.rules@.len() - i,
    {
        broadcast use crate::model::lemma_extended_trans;

        proof {
            assert(rules.take(i + 1).drop_last() =~= rules.take(i as int));
            assert(rules.take(i + 1).last() == db.rules@[i as int]@);
        }
        let rule = &db.rules[i];
        if rule.fires(&all) {
            rule.apply_to(device);
        }
        i = i + 1;
    }
    proof {
        assert(rules.take(i as int) =~= rules);
    }
}

/// A guess that a rule made is not observed: whether it is there makes no difference
/// to what any rule sees.
pub proof fn law_rule_guesses_are_not_observed(d: DeviceView, g: GuessView)
    requires
        g.source == "identity_rule"@,
    ensures
        observations_spec(DeviceView { make: Some(g), ..d }) == observations_spec(
            DeviceView { make: None, ..d },
        ),
        observations_spec(DeviceView { model: Some(g), ..d }) == observations_spec(
            DeviceView { model: None, ..d },
        ),
        observations_spec(DeviceView { os: Some(g), ..d }) == observations_spec(
            DeviceView { os: None, ..d },
        ),
        observations_spec(DeviceView { device_type: Some(g), ..d }) == observations_spec(
            DeviceView { device_type: None, ..d },
        ),
{
}

/// A rule without conditions never fires.
pub proof fn law_rule_needs_a_condition(rule: IdentityRuleView, all: Seq<ObservationView>)
    requires
        rule.conditions.len() == 0,
    ensures
        !rule.fires(all),
{
}

/// Rules by falling priority.
pub struct ByPriority {}

impl SortOrder<IdentityRule> for ByPriority {
    open spec fn before(a: IdentityRuleView, b: IdentityRuleView) -> bool {
        a.priority > b.priority
    }

    fn comes_before(a: &IdentityRule, b: &IdentityRule) -> (r: bool) {
        a.priority > b.priority
    }

    proof fn asymmetric(a: IdentityRuleView, b: IdentityRuleView) {
    }

    proof fn transitive(a: IdentityRuleView, b: IdentityRuleView, c: IdentityRuleView) {
    }
}

/// A condition on a value: one text or one of several occurs in it.
pub open spec fn match_spec(
    source: Option<Seq<char>>,
    key: Seq<char>,
    contains: Option<Seq<char>>,
    any_of: Seq<Seq<char>>,
) -> RuleMatchView {
    RuleMatchView { source, key, equals: None, contains, any_of, confidence_min: None }
}

/// The guesses of a built-in rule.
pub open spec fn output_spec(
    make: Option<Seq<char>>,
    os: Option<Seq<char>>,
    device_type: Option<Seq<char>>,
) -> RuleOutputView {
    RuleOutputView { make, model: None, os, device_type }
}

/// A built-in rule: one condition.
pub open spec fn rule_spec(
    id: Seq<char>,
    priority: i32,
    confidence: Confidence,
    condition: RuleMatchView,
    set: RuleOutputView,
) -> IdentityRuleView {
    IdentityRuleView { id, priority, confidence, conditions: seq![condition], set }
}

/// The built-in rules.
#[verifier::opaque]
pub open spec fn builtin_rules() -> Seq<IdentityRuleView> {
    seq![
        rule_spec(
            "apple-mac-model"@,
            100,
            92,
            match_spec(None, "model"@, None, seq!["MacBook"@, "Mac mini"@, "MacBookPro"@, "iMac"@, "Mac Studio"@]),
            output_spec(Some("Apple"@), Some("macOS"@), Some("computer"@)),
        ),
        rule_spec(
            "apple-tv"@,
            100,
            92,
            match_spec(None, "model"@, None, seq!["AppleTV"@, "Apple TV"@]),
            output_spec(Some("Apple"@), Some("tvOS"@), Some("media-streamer"@)),
        ),
        rule_spec(
            "airplay-device"@,
            90,
            78,
            match_spec(None, "service"@, None, seq!["airplay"@, "raop"@, "airdrop"@]),
            output_spec(Some("Apple"@), None, Some("media-device"@)),
        ),
        rule_spec(
            "bravia-tv"@,
            95,
            90,
            match_spec(None, "model"@, Some("BRAVIA"@), Seq::empty()),
            output_spec(Some("Sony"@), Some("Android TV"@), Some("tv"@)),
        ),
        rule_spec(
            "dial-tv-or-cast"@,
            80,
            78,
            match_spec(None, "service"@, Some("dial"@), Seq::empty()),
            output_spec(None, None, Some("media-streamer"@)),
        ),
        rule_spec(
            "google-cast"@,
            90,
            86,
            match_spec(None, "service"@, None, seq!["googlecast"@, "chromecast"@, "cast"@]),
            output_spec(Some("Google"@), None, Some("media-streamer"@)),
        ),
        rule_spec(
            "nintendo-console"@,
            80,
            75,
            match_spec(None, "vendor"@, Some("Nintendo"@), Seq::empty()),
            output_spec(Some("Nintendo"@), None, Some("game-console"@)),
        ),
        rule_spec(
            "amazon-device"@,
            70,
            68,
            match_spec(None, "vendor"@, Some("Amazon"@), Seq::empty()),
            output_spec(Some("Amazon"@), None, Some("smart-home"@)),
        ),
        rule_spec(
            "printer-ipp-or-raw"@,
            85,
            78,
            match_spec(None, "port"@, None, seq!["631"@, "9100"@]),
            output_spec(None, None, Some("printer"@)),
        ),
        rule_spec(
            "synology-nas"@,
            95,
            90,
            match_spec(None, "vendor"@, Some("Synology"@), Seq::empty()),
            output_spec(Some("Synology"@), Some("DSM"@), Some("nas"@)),
        ),
        rule_spec(
            "qnap-nas"@,
            95,
            90,
            match_spec(None, "vendor"@, Some("QNAP"@), Seq::empty()),
            output_spec(Some("QNAP"@), Some("QTS"@), Some("nas"@)),
        ),
        rule_spec(
            "openwrt-http"@,
            95,
            88,
            match_spec(None, "http_header_server"@, None, seq!["OpenWrt"@, "uhttpd"@]),
            output_spec(None, Some("OpenWrt"@), Some("router"@)),
        ),
        rule_spec(
            "dropbear-embedded"@,
            70,
            66,
            match_spec(None, "ssh_banner"@, Some("dropbear"@), Seq::empty()),
            output_spec(None, Some("Linux/embedded"@), None),
        ),
        rule_spec(
            "dhcp-msft-windows"@,
            80,
            72,
            match_spec(Some("dhcp"@), "vendor_class"@, Some("MSFT"@), Seq::empty()),
            output_spec(None, Some("Windows"@), Some("computer"@)),
        ),
        rule_spec(
            "dhcp-android"@,
            80,
            72,
            match_spec(Some("dhcp"@), "vendor_class"@, Some("android"@), Seq::empty()),
            output_spec(None, Some("Android"@), None),
        ),
        rule_spec(
            "samba-server"@,
            70,
            68,
            match_spec(None, "smb_native_lanman"@, Some("Samba"@), Seq::empty()),
            output_spec(None, Some("Unix-like"@), Some("file-server"@)),
        ),
        rule_spec(
            "windows-smb"@,
            70,
            72,
            match_spec(None, "smb_native_os"@, Some("Windows"@), Seq::empty()),
            output_spec(None, Some("Windows"@), Some("computer"@)),
        ),
    ]
}

/// An owned copy of a text that may be there.
fn opt_owned(s: Option<&str>) -> (r: Option<String>)
    ensures
        r.deep_view() == opt_text(s),
{
    match s {
        Some(s) => Some(owned(s)),
        None => None,
    }
}

/// The content of a text that may be there.
pub open spec fn opt_text(s: Option<&str>) -> Option<Seq<char>> {
    match s {
        Some(s) => Some(s@),
        None => None,
    }
}

/// The contents of several texts.
pub open spec fn texts_of(s: Seq<&str>) -> Seq<Seq<char>> {
    s.map_values(|t: &str| t@)
}

/// Builds a condition.
fn condition(source: Option<&str>, key: &str, contains: Option<&str>, any_of: &[&str]) -> (r:
    RuleMatch)
    ensures
        r@ == match_spec(opt_text(source), key@, opt_text(contains), texts_of(any_of@)),
{
    let mut words: Vec<String> = Vec::new();
    let mut i: usize = 0;
    while i < any_of.len()
        invariant
            i <= any_of@.len(),
            words@.len() == i,
            forall|k: int| 0 <= k < i ==> (#[trigger] words@[k])@ == any_of@[k]@,
        decreases any_of@.len() - i,
    {
        words.push(owned(any_of[i]));
        i = i + 1;
    }
    proof {
        assert(words.deep_view() =~= texts_of(any_of@));
    }
    RuleMatch {
        source: opt_owned(source),
        key: owned(key),
        equals: None,
        contains: opt_owned(contains),
        any_of: words,
        confidence_min: None,
    }
}

/// Builds the guesses of a rule.
fn output(make: Option<&str>, os: Option<&str>, device_type: Option<&str>) -> (r: RuleOutput)
    ensures
        r@ == output_spec(opt_text(make), opt_text(os), opt_text(device_type)),
{
    RuleOutput {
        make: opt_owned(make),
        model: None,
        os: opt_owned(os),
        device_type: opt_owned(device_type),
    }
}

/// Adds a rule with one condition.
fn add_rule(
    rules: &mut Vec<IdentityRule>,
    id: &str,
    priority: i32,
    confidence: Confidence,
    condition: RuleMatch,
    set: RuleOutput,
)
    ensures
        final(rules).deep_view() == old(rules).deep_view().push(
            rule_spec(id@, priority, confidence, condition@, set@),
        ),
{
    let ghost before = rules.deep_view();
    let mut conditions: Vec<RuleMatch> = Vec::new();
    let ghost wanted = condition@;
    conditions.push(condition);
    proof {
        assert(conditions.deep_view() =~= seq![wanted]);
    }
    let rule = IdentityRule { id: owned(id), priority, confidence, conditions, set };
    let ghost view = rule@;
    rules.push(rule);
    proof {
        assert(rules.deep_view() =~= before.push(view));
    }
}

/// The built-in rules.
pub fn builtin_rule_db() -> (r: Result<RuleDb, String>)
    ensures
        r matches Ok(db) && db@.rules == builtin_rules(),
{
    let mut rules: Vec<IdentityRule> = Vec::new();
    proof {
        assert(rules.deep_view() =~= seq![]);
    }
    let w: [&str; 5] = ["MacBook", "Mac mini", "MacBookPro", "iMac", "Mac Studio"];
    proof {
        assert(texts_of(w@) =~= seq!["MacBook"@, "Mac mini"@, "MacBookPro"@, "iMac"@, "Mac Studio"@]);
    }
    add_rule(
        &mut rules,
        "apple-mac-model",
        100,
        92,
        condition(None, "model", None, w.as_slice()),
        output(Some("Apple"), Some("macOS"), Some("computer")),
    );
    let w: [&str; 2] = ["AppleTV", "Apple TV"];
    proof {
        assert(texts_of(w@) =~= seq!["AppleTV"@, "Apple TV"@]);
    }
    add_rule(
        &mut rules,
        "apple-tv",
        100,
        92,
        condition(None, "model", None, w.as_slice()),
        output(Some("Apple"), Some("tvOS"), Some("media-streamer")),
    );
    let w: [&str; 3] = ["airplay", "raop", "airdrop"];
    proof {
        assert(texts_of(w@) =~= seq!["airplay"@, "raop"@, "airdrop"@]);
    }
    add_rule(
        &mut rules,
        "airplay-device",
        90,
        78,
        condition(None, "service", None, w.as_slice()),
        output(Some("Apple"), None, Some("media-device")),
    );
    let w: [&str; 0] = [];
    proof {
        assert(texts_of(w@) =~= Seq::<Seq<char>>::empty());
    }
    add_rule(
        &mut rules,
        "bravia-tv",
        95,
        90,
        condition(None, "model", Some("BRAVIA"), w.as_slice()),
        output(Some("Sony"), Some("Android TV"), Some("tv")),
    );
    let w: [&str; 0] = [];
    proof {
        assert(texts_of(w@) =~= Seq::<Seq<char>>::empty());
    }
    add_rule(
        &mut rules,
        "dial-tv-or-cast",
        80,
        78,
        condition(None, "service", Some("dial"), w.as_slice()),
        output(None, None, Some("media-streamer")),
    );
    let w: [&str; 3] = ["googlecast", "chromecast", "cast"];
    proof {
        assert(texts_of(w@) =~= seq!["googlecast"@, "chromecast"@, "cast"@]);
    }
    add_rule(
        &mut rules,
        "google-cast",
        90,
        86,
        condition(None, "service", None, w.as_slice()),
        output(Some("Google"), None, Some("media-streamer")),
    );
    let w: [&str; 0] = [];
    proof {
        assert(texts_of(w@) =~= Seq::<Seq<char>>::empty());
    }
    add_rule(
        &mut rules,
        "nintendo-console",
        80,
        75,
        condition(None, "vendor", Some("Nintendo"), w.as_slice()),
        output(Some("Nintendo"), None, Some("game-console")),
    );
    let w: [&str; 0] = [];
    proof {
        assert(texts_of(w@) =~= Seq::<Seq<char>>::empty());
    }
    add_rule(
        &mut rules,
        "amazon-device",
        70,
        68,
        condition(None, "vendor", Some("Amazon"), w.as_slice()),
        output(Some("Amazon"), None, Some("smart-home")),
    );
    let w: [&str; 2] = ["631", "9100"];
    proof {
        assert(texts_of(w@) =~= seq!["631"@, "9100"@]);
    }
    add_rule(
        &mut rules,
        "printer-ipp-or-raw",
        85,
        78,
        condition(None, "port", None, w.as_slice()),
        output(None, None, Some("printer")),
    );
    let w: [&str; 0] = [];
    proof {
        assert(texts_of(w@) =~= Seq::<Seq<char>>::empty());
    }
    add_rule(
        &mut rules,
        "synology-nas",
        95,
        90,
        condition(None, "vendor", Some("Synology"), w.as_slice()),
        output(Some("Synology"), Some("DSM"), Some("nas")),
    );
    let w: [&str; 0] = [];
    proof {
        assert(texts_of(w@) =~= Seq::<Seq<char>>::empty());
    }
    add_rule(
        &mut rules,
        "qnap-nas",
        95,
        90,
        condition(None, "vendor", Some("QNAP"), w.as_slice()),
        output(Some("QNAP"), Some("QTS"), Some("nas")),
    );
    let w: [&str; 2] = ["OpenWrt", "uhttpd"];
    proof {
        assert(texts_of(w@) =~= seq!["OpenWrt"@, "uhttpd"@]);
    }
    add_rule(
        &mut rules,
        "openwrt-http",
        95,
        88,
        condition(None, "http_header_server", None, w.as_slice()),
        output(None, Some("OpenWrt"), Some("router")),
    );
    let w: [&str; 0] = [];
    proof {
        assert(texts_of(w@) =~= Seq::<Seq<char>>::empty());
    }
    add_rule(
        &mut rules,
        "dropbear-embedded",
        70,
        66,
        condition(None, "ssh_banner", Some("dropbear"), w.as_slice()),
        output(None, Some("Linux/embedded"), None),
    );
    let w: [&str; 0] = [];
    proof {
        assert(texts_of(w@) =~= Seq::<Seq<char>>::empty());
    }
    add_rule(
        &mut rules,
        "dhcp-msft-windows",
        80,
        72,
        condition(Some("dhcp"), "vendor_class", Some("MSFT"), w.as_slice()),
        output(None, Some("Windows"), Some("computer")),
    );
    let w: [&str; 0] = [];
    proof {
        assert(texts_of(w@) =~= Seq::<Seq<char>>::empty());
    }
    add_rule(
        &mut rules,
        "dhcp-android",
        80,
        72,
        condition(Some("dhcp"), "vendor_class", Some("android"), w.as_slice()),
        output(None, Some("Android"), None),
    );
    let w: [&str; 0] = [];
    proof {
        assert(texts_of(w@) =~= Seq::<Seq<char>>::empty());
    }
    add_rule(
        &mut rules,
        "samba-server",
        70,
        68,
        condition(None, "smb_native_lanman", Some("Samba"), w.as_slice()),
        output(None, Some("Unix-like"), Some("file-server")),
    );
    let w: [&str; 0] = [];
    proof {
        assert(texts_of(w@) =~= Seq::<Seq<char>>::empty());
    }
    add_rule(
        &mut rules,
        "windows-smb",
        70,
        72,
        condition(None, "smb_native_os", Some("Windows"), w.as_slice()),
        output(None, Some("Windows"), Some("computer")),
    );
    proof {
        reveal(builtin_rules);
        assert(rules.deep_view() =~= builtin_rules());
    }
    Ok(RuleDb { rules })
}

/// The built-in rules, by falling priority.
pub fn load_rule_db() -> (r: Result<RuleDb, String>)
    ensures
        r matches Ok(db) && db@.rules == sort::sorted_spec::<IdentityRule, ByPriority>(builtin_rules()),
{
    let db = builtin_rule_db()?;
    Ok(RuleDb { rules: sorted::<IdentityRule, ByPriority>(db.rules) })
}

/// An observation comes from somewhere in the device: from its vendor, one of its names,
/// one of its guesses that no rule made, one of its services or the port of one, or one
/// of its raw facts.
pub open spec fn comes_from(o: ObservationView, d: DeviceView) -> bool {
    ||| o.source == "oui"@ && o.key == "vendor"@ && d.vendor == Some(o.value) && o.confidence == 55
    ||| o.key == "name"@ && d.names.contains(
        NameEvidenceView { name: o.value, source: o.source, confidence: o.confidence },
    )
    ||| guessed(o, "make"@, d.make)
    ||| guessed(o, "model"@, d.model)
    ||| guessed(o, "os"@, d.os)
    ||| guessed(o, "device_type"@, d.device_type)
    ||| o.key == "service"@ && names_service(o, d.services)
    ||| o.key == "port"@ && names_port(o, d.services)
    ||| d.evidence.contains(
        EvidenceView {
            source: o.source,
            key: o.key,
            value: o.value,
            confidence: o.confidence,
        },
    )
}

/// The observation is a guess that no rule made.
pub open spec fn guessed(o: ObservationView, key: Seq<char>, guess: Option<GuessView>) -> bool {
    o.key == key && o.source != "identity_rule"@ && guess == Some(
        GuessView { value: o.value, source: o.source, confidence: o.confidence },
    )
}

/// The observation names one of the services.
pub open spec fn names_service(o: ObservationView, services: Seq<ServiceEvidenceView>) -> bool {
    exists|i: int|
        0 <= i < services.len() && (#[trigger] services[i]).name == o.value && services[i].source
            == o.source && services[i].confidence == o.confidence
}

/// The observation names the port of one of the services.
pub open spec fn names_port(o: ObservationView, services: Seq<ServiceEvidenceView>) -> bool {
    exists|i: int|
        0 <= i < services.len() && ((#[trigger] services[i]).port matches Some(port)
            && text::decimal_spec(port as nat) == o.value) && services[i].source == o.source
            && services[i].confidence == o.confidence
}

/// One more observation adds itself, unless its value is blank.
proof fn lemma_observed(
    all: Seq<ObservationView>,
    source: Seq<char>,
    key: Seq<char>,
    value: Seq<char>,
    confidence: Confidence,
    o: ObservationView,
)
    ensures
        observed(all, source, key, value, confidence).contains(o) <==> all.contains(o) || (
        !model::blank(value) && o == (ObservationView { source, key, value, confidence })),
{
    let r = observed(all, source, key, value, confidence);
    if all.contains(o) {
        let i = choose|i: int| 0 <= i < all.len() && all[i] == o;
        assert(r[i] == o);
    }
    if !model::blank(value) {
        assert(r[all.len() as int] == (ObservationView { source, key, value, confidence }));
    }
}

/// Names add themselves.
proof fn lemma_observed_names(
    all: Seq<ObservationView>,
    names: Seq<NameEvidenceView>,
    o: ObservationView,
)
    ensures
        observed_names(all, names).contains(o) <==> all.contains(o) || (!model::blank(o.value)
            && o.key == "name"@ && names.contains(
            NameEvidenceView { name: o.value, source: o.source, confidence: o.confidence },
        )),
    decreases names.len(),
{
    let wanted = NameEvidenceView { name: o.value, source: o.source, confidence: o.confidence };
    if names.len() > 0 {
        let front = names.drop_last();
        let n = names.last();
        lemma_observed_names(all, front, o);
        lemma_observed(
            observed_names(all, front),
            n.source,
            "name"@,
            n.name,
            n.confidence,
            o,
        );
        if names.contains(wanted) && n != wanted {
            let i = choose|i: int| 0 <= i < names.len() && names[i] == wanted;
            assert(front[i] == wanted);
        }
        if front.contains(wanted) {
            let i = choose|i: int| 0 <= i < front.len() && front[i] == wanted;
            assert(names[i] == wanted);
        }
        assert(names[names.len() - 1] == n);
    }
}

/// Services add themselves and their ports.
proof fn lemma_observed_services(
    all: Seq<ObservationView>,
    services: Seq<ServiceEvidenceView>,
    o: ObservationView,
)
    ensures
        observed_services(all, services).contains(o) <==> all.contains(o) || (!model::blank(
            o.value,
        ) && (o.key == "service"@ && names_service(o, services) || o.key == "port"@
            && names_port(o, services))),
    decreases services.len(),
{
    if services.len() > 0 {
        let front = services.drop_last();
        let s = services.last();
        let before = observed_services(all, front);
        let named = observed(before, s.source, "service"@, s.name, s.confidence);
        lemma_observed_services(all, front, o);
        lemma_observed(before, s.source, "service"@, s.name, s.confidence, o);
        if let Some(port) = s.port {
            lemma_observed(
                named,
                s.source,
                "port"@,
                text::decimal_spec(port as nat),
                s.confidence,
                o,
            );
        }
        assert(services[services.len() - 1] == s);
        if names_service(o, front) {
            let i = choose|i: int|
                0 <= i < front.len() && (#[trigger] front[i]).name == o.value && front[i].source
                    == o.source && front[i].confidence == o.confidence;
            assert(services[i] == front[i]);
        }
        if names_port(o, front) {
            let i = choose|i: int|
                0 <= i < front.len() && ((#[trigger] front[i]).port matches Some(port)
                    && text::decimal_spec(port as nat) == o.value) && front[i].source == o.source
                    && front[i].confidence == o.confidence;
            assert(services[i] == front[i]);
        }
        if names_service(o, services) {
            let i = choose|i: int|
                0 <= i < services.len() && (#[trigger] services[i]).name == o.value
                    && services[i].source == o.source && services[i].confidence == o.confidence;
            if i < front.len() {
                assert(front[i] == services[i]);
            }
        }
        if names_port(o, services) {
            let i = choose|i: int|
                0 <= i < services.len() && ((#[trigger] services[i]).port matches Some(port)
                    && text::decimal_spec(port as nat) == o.value) && services[i].source
                    == o.source && services[i].confidence == o.confidence;
            if i < front.len() {
                assert(front[i] == services[i]);
            }
        }
    }
}

/// Raw facts add themselves.
proof fn lemma_observed_evidence(
    all: Seq<ObservationView>,
    facts: Seq<EvidenceView>,
    o: ObservationView,
)
    ensures
        observed_evidence(all, facts).contains(o) <==> all.contains(o) || (!model::blank(o.value)
            && facts.contains(
            EvidenceView {
                source: o.source,
                key: o.key,
                value: o.value,
                confidence: o.confidence,
            },
        )),
    decreases facts.len(),
{
    let wanted = EvidenceView {
        source: o.source,
        key: o.key,
        value: o.value,
        confidence: o.confidence,
    };
    if facts.len() > 0 {
        let front = facts.drop_last();
        let e = facts.last();
        lemma_observed_evidence(all, front, o);
        lemma_observed(
            observed_evidence(all, front),
            e.source,
            e.key,
            e.value,
            e.confidence,
            o,
        );
        if facts.contains(wanted) && e != wanted {
            let i = choose|i: int| 0 <= i < facts.len() && facts[i] == wanted;
            assert(front[i] == wanted);
        }
        if front.contains(wanted) {
            let i = choose|i: int| 0 <= i < front.len() && front[i] == wanted;
            assert(facts[i] == wanted);
        }
        assert(facts[facts.len() - 1] == e);
    }
}

/// What is observed of a device is exactly what it holds and is not blank: its vendor,
/// its names, its guesses that no rule made, its services by name and by port, and its
/// raw facts, each under its own key, with its source and its confidence.
pub proof fn law_observations_are_what_is_held(d: DeviceView, o: ObservationView)
    ensures
        observations_spec(d).contains(o) <==> !model::blank(o.value) && comes_from(o, d),
{
    let none = Seq::<ObservationView>::empty();
    let a = match d.vendor {
        Some(vendor) => observed(none, "oui"@, "vendor"@, vendor, 55),
        None => none,
    };
    if let Some(vendor) = d.vendor {
        lemma_observed(none, "oui"@, "vendor"@, vendor, 55, o);
    }
    let b = observed_names(a, d.names);
    lemma_observed_names(a, d.names, o);
    let c = observed_guess(b, "make"@, d.make);
    lemma_observed_guess(b, "make"@, d.make, o);
    let e = observed_guess(c, "model"@, d.model);
    lemma_observed_guess(c, "model"@, d.model, o);
    let f = observed_guess(e, "os"@, d.os);
    lemma_observed_guess(e, "os"@, d.os, o);
    let g = observed_guess(f, "device_type"@, d.device_type);
    lemma_observed_guess(f, "device_type"@, d.device_type, o);
    let h = observed_services(g, d.services);
    lemma_observed_services(g, d.services, o);
    lemma_observed_evidence(h, d.evidence, o);
}

/// A guess adds itself, unless a rule made it.
proof fn lemma_observed_guess(
    all: Seq<ObservationView>,
    key: Seq<char>,
    guess: Option<GuessView>,
    o: ObservationView,
)
    ensures
        observed_guess(all, key, guess).contains(o) <==> all.contains(o) || (!model::blank(
            o.value,
        ) && guessed(o, key, guess)),
{
    if let Some(g) = guess {
        lemma_observed(all, g.source, key, g.value, g.confidence, o);
    }
}

/// What one condition of a rule asks of an observation, test by test. Letters match
/// whatever their case; an exact value makes the other tests of the value void.
pub proof fn law_condition_is_met(m: RuleMatchView, o: ObservationView)
    ensures
        m.met_by(o) ==> o.key == m.key,
        m.met_by(o) && m.source is Some ==> m.source == Some(o.source),
        m.met_by(o) && m.confidence_min is Some ==> o.confidence >= m.confidence_min->0,
        m.met_by(o) && m.equals is Some ==> text::lower_spec(o.value) == text::lower_spec(
            m.equals->0,
        ),
        m.met_by(o) && m.equals is None && m.contains is Some ==> text::contains_spec(
            text::lower_spec(o.value),
            text::lower_spec(m.contains->0),
        ),
        m.met_by(o) && m.equals is None && m.any_of.len() > 0 ==> exists|i: int|
            0 <= i < m.any_of.len() && text::contains_spec(
                text::lower_spec(o.value),
                text::lower_spec(#[trigger] m.any_of[i]),
            ),
        o.key == m.key && (m.source is None || m.source == Some(o.source)) && (m.confidence_min
            is None || o.confidence >= m.confidence_min->0) && (m.equals is Some
            && text::lower_spec(o.value) == text::lower_spec(m.equals->0)) ==> m.met_by(o),
        o.key == m.key && (m.source is None || m.source == Some(o.source)) && (m.confidence_min
            is None || o.confidence >= m.confidence_min->0) && m.equals is None && (m.contains
            is None || text::contains_spec(
            text::lower_spec(o.value),
            text::lower_spec(m.contains->0),
        )) && (m.any_of.len() == 0 || exists|i: int|
            0 <= i < m.any_of.len() && text::contains_spec(
                text::lower_spec(o.value),
                text::lower_spec(#[trigger] m.any_of[i]),
            )) ==> m.met_by(o),
{
}

/// Every condition of the rule is met by something that the device holds.
pub open spec fn called_for(rule: IdentityRuleView, d: DeviceView) -> bool {
    rule.conditions.len() > 0 && forall|i: int|
        0 <= i < rule.conditions.len() ==> meets(#[trigger] rule.conditions[i], d)
}

/// The condition is met by something that the device holds and that is not blank.
pub open spec fn meets(m: RuleMatchView, d: DeviceView) -> bool {
    exists|o: ObservationView| #[trigger]
        m.met_by(o) && comes_from(o, d) && !model::blank(o.value)
}

/// A condition is met where something that the device holds meets it.
proof fn lemma_meets(m: RuleMatchView, d: DeviceView)
    ensures
        m.met(observations_spec(d)) <==> meets(m, d),
{
    let all = observations_spec(d);
    if m.met(all) {
        let i = choose|i: int| 0 <= i < all.len() && m.met_by(#[trigger] all[i]);
        assert(all.contains(all[i]));
        law_observations_are_what_is_held(d, all[i]);
    }
    if meets(m, d) {
        let o = choose|o: ObservationView| #[trigger]
            m.met_by(o) && comes_from(o, d) && !model::blank(o.value);
        law_observations_are_what_is_held(d, o);
        let i = choose|i: int| 0 <= i < all.len() && all[i] == o;
        assert(m.met_by(all[i]));
    }
}

/// A rule fires where the device calls for it.
proof fn lemma_fires(rule: IdentityRuleView, d: DeviceView)
    ensures
        rule.fires(observations_spec(d)) <==> called_for(rule, d),
{
    assert forall|i: int| 0 <= i < rule.conditions.len() implies (
    #[trigger] rule.conditions[i]).met(observations_spec(d)) == meets(rule.conditions[i], d) by {
        lemma_meets(rule.conditions[i], d);
    }
}

/// A device shows what a rule concludes: the fact that names the rule, and guesses that
/// are at least as confident as those of the rule.
pub open spec fn shows(d: DeviceView, rule: IdentityRuleView) -> bool {
    &&& !model::blank(rule.id) ==> d.knows_evidence("identity_rule"@, "rule"@, rule.id)
    &&& reached(rule.set.make, rule.confidence, d.make)
    &&& reached(rule.set.model, rule.confidence, d.model)
    &&& reached(rule.set.os, rule.confidence, d.os)
    &&& reached(rule.set.device_type, rule.confidence, d.device_type)
}

/// A guess is at least as confident as what a rule says, where it says something.
pub open spec fn reached(
    said: Option<Seq<char>>,
    confidence: Confidence,
    held: Option<GuessView>,
) -> bool {
    said matches Some(v) ==> (model::blank(v) || (held matches Some(h) && h.confidence
        >= confidence))
}

/// A guess is the one from before or what a rule says, with the confidence of the rule.
pub open spec fn kept_or_said(
    before: Option<GuessView>,
    after: Option<GuessView>,
    said: Option<Seq<char>>,
    confidence: Confidence,
) -> bool {
    after == before || (said matches Some(v) && after == Some(
        GuessView { value: v, source: "identity_rule"@, confidence },
    ))
}

/// The conclusions of one rule.
proof fn lemma_applied(rule: IdentityRuleView, d: DeviceView)
    ensures
        d.extended_by(rule.applied_to(d)),
        shows(rule.applied_to(d), rule),
        kept_or_said(d.make, rule.applied_to(d).make, rule.set.make, rule.confidence),
        kept_or_said(d.model, rule.applied_to(d).model, rule.set.model, rule.confidence),
        kept_or_said(d.os, rule.applied_to(d).os, rule.set.os, rule.confidence),
        kept_or_said(
            d.device_type,
            rule.applied_to(d).device_type,
            rule.set.device_type,
            rule.confidence,
        ),
        rule.applied_to(d).names == d.names,
        rule.applied_to(d).services == d.services,
        rule.applied_to(d).hostname == d.hostname,
        rule.applied_to(d).mac == d.mac,
        rule.applied_to(d).vendor == d.vendor,
{
    reveal(IdentityRuleView::applied_to);
    reveal(DeviceView::extended_by);
    reveal(DeviceView::set_make);
    reveal(DeviceView::set_model);
    reveal(DeviceView::set_os);
    reveal(DeviceView::set_device_type);
    reveal(DeviceView::add_evidence);
    let r = rule.applied_to(d);
    if !model::blank(rule.id) && !d.knows_evidence("identity_rule"@, "rule"@, rule.id) {
        assert(r.evidence[d.evidence.len() as int].value == rule.id);
    }
    if d.knows_evidence("identity_rule"@, "rule"@, rule.id) {
        assert(r.evidence == d.evidence);
    }
}

/// Rules take nothing away, change guesses and raw facts only, and a guess that a list
/// of rules changed is one that a rule of the list says.
proof fn lemma_ruled(d: DeviceView, rules: Seq<IdentityRuleView>, all: Seq<ObservationView>)
    ensures
        d.extended_by(ruled(d, rules, all)),
        ruled(d, rules, all).names == d.names,
        ruled(d, rules, all).services == d.services,
        ruled(d, rules, all).hostname == d.hostname,
        ruled(d, rules, all).mac == d.mac,
        ruled(d, rules, all).vendor == d.vendor,
        forall|i: int|
            0 <= i < rules.len() && (#[trigger] rules[i]).fires(all) ==> shows(
                ruled(d, rules, all),
                rules[i],
            ),
        ruled(d, rules, all).make != d.make ==> exists|i: int|
            0 <= i < rules.len() && (#[trigger] rules[i]).fires(all) && kept_or_said(
                None,
                ruled(d, rules, all).make,
                rules[i].set.make,
                rules[i].confidence,
            ) && ruled(d, rules, all).make is Some,
        ruled(d, rules, all).model != d.model ==> exists|i: int|
            0 <= i < rules.len() && (#[trigger] rules[i]).fires(all) && kept_or_said(
                None,
                ruled(d, rules, all).model,
                rules[i].set.model,
                rules[i].confidence,
            ) && ruled(d, rules, all).model is Some,
        ruled(d, rules, all).os != d.os ==> exists|i: int|
            0 <= i < rules.len() && (#[trigger] rules[i]).fires(all) && kept_or_said(
                None,
                ruled(d, rules, all).os,
                rules[i].set.os,
                rules[i].confidence,
            ) && ruled(d, rules, all).os is Some,
        ruled(d, rules, all).device_type != d.device_type ==> exists|i: int|
            0 <= i < rules.len() && (#[trigger] rules[i]).fires(all) && kept_or_said(
                None,
                ruled(d, rules, all).device_type,
                rules[i].set.device_type,
                rules[i].confidence,
            ) && ruled(d, rules, all).device_type is Some,
    decreases rules.len(),
{
    broadcast use {crate::model::lemma_extended_refl, crate::model::lemma_extended_trans};

    if rules.len() > 0 {
        let front = rules.drop_last();
        let rule = rules.last();
        let x = ruled(d, front, all);
        let r = ruled(d, rules, all);
        lemma_ruled(d, front, all);
        assert(rules[rules.len() - 1] == rule);
        if rule.fires(all) {
            lemma_applied(rule, x);
        }
        model::lemma_extension_knows(x, r);
        assert forall|i: int| 0 <= i < rules.len() && (#[trigger] rules[i]).fires(
            all,
        ) implies shows(r, rules[i]) by {
            if i < front.len() {
                assert(front[i] == rules[i]);
                assert(shows(x, front[i]));
                reveal(DeviceView::extended_by);
            }
        }
        if x.make != d.make {
            let i = choose|i: int|
                0 <= i < front.len() && (#[trigger] front[i]).fires(all) && kept_or_said(
                    None,
                    x.make,
                    front[i].set.make,
                    front[i].confidence,
                ) && x.make is Some;
            assert(rules[i] == front[i]);
        }
        if x.model != d.model {
            let i = choose|i: int|
                0 <= i < front.len() && (#[trigger] front[i]).fires(all) && kept_or_said(
                    None,
                    x.model,
                    front[i].set.model,
                    front[i].confidence,
                ) && x.model is Some;
            assert(rules[i] == front[i]);
        }
        if x.os != d.os {
            let i = choose|i: int|
                0 <= i < front.len() && (#[trigger] front[i]).fires(all) && kept_or_said(
                    None,
                    x.os,
                    front[i].set.os,
                    front[i].confidence,
                ) && x.os is Some;
            assert(rules[i] == front[i]);
        }
        if x.device_type != d.device_type {
            let i = choose|i: int|
                0 <= i < front.len() && (#[trigger] front[i]).fires(all) && kept_or_said(
                    None,
                    x.device_type,
                    front[i].set.device_type,
                    front[i].confidence,
                ) && x.device_type is Some;
            assert(rules[i] == front[i]);
        }
    }
}

/// Rules take nothing away from a device, and change guesses and raw facts only.
pub proof fn law_rules_erase_nothing(d: DeviceView, db: RuleDbView)
    ensures
        d.extended_by(identity_rules_spec(d, db)),
        identity_rules_spec(d, db).names == d.names,
        identity_rules_spec(d, db).services == d.services,
        identity_rules_spec(d, db).hostname == d.hostname,
        identity_rules_spec(d, db).mac == d.mac,
        identity_rules_spec(d, db).vendor == d.vendor,
{
    lemma_ruled(d, db.rules, observations_spec(d));
}

/// A rule whose conditions are all met by what the device holds leaves its conclusions:
/// the fact that names it, and guesses at least as confident as its own.
pub proof fn law_rules_that_are_called_for_conclude(d: DeviceView, db: RuleDbView, i: int)
    requires
        0 <= i < db.rules.len(),
        called_for(db.rules[i], d),
    ensures
        shows(identity_rules_spec(d, db), db.rules[i]),
{
    lemma_fires(db.rules[i], d);
    lemma_ruled(d, db.rules, observations_spec(d));
}

/// A guess that the rules changed is the conclusion of a rule that the device calls for,
/// with the confidence of that rule.
pub proof fn law_changed_guesses_are_called_for(d: DeviceView, db: RuleDbView)
    ensures
        ({
            let r = identity_rules_spec(d, db);
            &&& r.make != d.make ==> exists|i: int|
                0 <= i < db.rules.len() && called_for(#[trigger] db.rules[i], d)
                    && concluded(db.rules[i].set.make, db.rules[i].confidence, r.make)
            &&& r.model != d.model ==> exists|i: int|
                0 <= i < db.rules.len() && called_for(#[trigger] db.rules[i], d)
                    && concluded(db.rules[i].set.model, db.rules[i].confidence, r.model)
            &&& r.os != d.os ==> exists|i: int|
                0 <= i < db.rules.len() && called_for(#[trigger] db.rules[i], d)
                    && concluded(db.rules[i].set.os, db.rules[i].confidence, r.os)
            &&& r.device_type != d.device_type ==> exists|i: int|
                0 <= i < db.rules.len() && called_for(#[trigger] db.rules[i], d)
                    && concluded(db.rules[i].set.device_type, db.rules[i].confidence, r.device_type)
        }),
{
    let all = observations_spec(d);
    let rules = db.rules;
    let r = identity_rules_spec(d, db);
    lemma_ruled(d, rules, all);
    assert forall|i: int| 0 <= i < rules.len() && (#[trigger] rules[i]).fires(
        all,
    ) implies called_for(rules[i], d) by {
        lemma_fires(rules[i], d);
    }
}

/// The guess is what a rule says, with its confidence.
pub open spec fn concluded(
    said: Option<Seq<char>>,
    confidence: Confidence,
    guess: Option<GuessView>,
) -> bool {
    said matches Some(v) && guess == Some(
        GuessView { value: v, source: "identity_rule"@, confidence },
    )
}

} // verus!
