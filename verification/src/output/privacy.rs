//! Display-time redaction helpers.
//!
//! MAC addresses identify hardware and are often sensitive in screenshots or shared
//! inventory exports. They are masked at the output boundary only, so the scanner can
//! still correlate devices by full MAC address and preserve cache continuity across
//! IP changes.

use crate::model::{
    Device, DeviceView, Evidence, EvidenceView, Guess, GuessView, NameEvidence, NameEvidenceView,
    ScanResult, ScanResultView, ServiceEvidence, ServiceEvidenceView,
};
use crate::text::{
    chars, concat, concat3, concat4, hex_digit, hex_digits, is_text, join, only_hex, lower, owned,
    replace_char, same, split_char, starts_with, text, trim, ends_with,
};
use crate::text;
use vstd::prelude::*;

verus! {

/// How output is shown.
#[derive(Clone, Copy, Debug, PartialEq, Eq, Structural)]
pub struct OutputOptions {
    pub mac: MacAddressDisplay,
}

/// How MAC addresses are shown.
#[derive(Clone, Copy, Debug, PartialEq, Eq, Structural)]
pub enum MacAddressDisplay {
    /// As they are.
    Full,
    /// With the half masked that tells one device of a vendor from another.
    MaskLower24,
}

impl Default for MacAddressDisplay {
    fn default() -> (r: Self)
        ensures
            r == MacAddressDisplay::Full,
    {
        MacAddressDisplay::Full
    }
}

impl Default for OutputOptions {
    fn default() -> (r: Self)
        ensures
            r.mac == MacAddressDisplay::Full,
    {
        OutputOptions { mac: MacAddressDisplay::Full }
    }
}

impl OutputOptions {
    /// MAC addresses are masked.
    pub open spec fn masks(self) -> bool {
        self.mac == MacAddressDisplay::MaskLower24
    }

    /// Reports whether MAC addresses are masked.
    pub fn mask_mac(self) -> (r: bool)
        ensures
            r == self.masks(),
    {
        matches!(self.mac, MacAddressDisplay::MaskLower24)
    }
}

/// The parts of a text between colons and hyphens.
pub open spec fn mac_parts(mac: Seq<char>) -> Seq<Seq<char>> {
    text::split_char_spec(text::replace_char_spec(mac, '-', ':'), ':')
}

/// Three parts of a MAC address in lower case, and three masked ones.
pub open spec fn half_masked(a: Seq<char>, b: Seq<char>, c: Seq<char>) -> Seq<char> {
    text::lower_spec(a) + ":"@ + text::lower_spec(b) + (":"@ + text::lower_spec(c) + ":**:**:**"@)
}

/// The text with its lower half masked: six parts, or twelve hexadecimal digits; any
/// other text is kept.
pub open spec fn mask24_spec(mac: Seq<char>) -> Seq<char> {
    let parts = mac_parts(mac);
    let hex = text::hex_digits_spec(mac);
    if parts.len() == 6 {
        half_masked(parts[0], parts[1], parts[2])
    } else if hex.len() == 12 {
        half_masked(hex.subrange(0, 2), hex.subrange(2, 4), hex.subrange(4, 6))
    } else {
        mac
    }
}

/// Writes three parts and three masked ones.
fn write_masked(a: &[char], b: &[char], c: &[char]) -> (r: String)
    ensures
        r@ == half_masked(a@, b@, c@),
{
    concat4(
        text(lower(a).as_slice()).as_str(),
        ":",
        text(lower(b).as_slice()).as_str(),
        concat3(":", text(lower(c).as_slice()).as_str(), ":**:**:**").as_str(),
    )
}

/// Masks the lower half of a MAC address. The vendor half stays visible: it is enough
/// to understand device families without disclosing the hardware identifier.
pub fn mask_lower_24_bits(mac: &str) -> (r: String)
    ensures
        r@ == mask24_spec(mac@),
{
    let c = chars(mac);
    let same_separator = chars(replace_char(c.as_slice(), '-', ':').as_str());
    let parts = split_char(same_separator.as_slice(), ':');
    let ghost views = text::slice_views(parts@);
    if parts.len() == 6 {
        proof {
            assert(views[0] == parts@[0]@);
            assert(views[1] == parts@[1]@);
            assert(views[2] == parts@[2]@);
        }
        return write_masked(parts[0], parts[1], parts[2]);
    }
    let hex = hex_digits(c.as_slice());
    if hex.len() == 12 {
        return write_masked(
            vstd::slice::slice_subrange(hex.as_slice(), 0, 2),
            vstd::slice::slice_subrange(hex.as_slice(), 2, 4),
            vstd::slice::slice_subrange(hex.as_slice(), 4, 6),
        );
    }
    owned(mac)
}

/// How a MAC address is shown; an unknown one is a hyphen.
pub open spec fn display_mac_spec(mac: Option<Seq<char>>, options: OutputOptions) -> Seq<char> {
    match mac {
        Some(value) => if options.masks() {
            mask24_spec(value)
        } else {
            value
        },
        None => "-"@,
    }
}

/// Shows a MAC address.
pub fn display_mac(mac: &Option<String>, options: OutputOptions) -> (r: String)
    ensures
        r@ == display_mac_spec(mac.deep_view(), options),
{
    match mac {
        Some(value) => {
            if options.mask_mac() {
                mask_lower_24_bits(value.as_str())
            } else {
                value.clone()
            }
        },
        None => owned("-"),
    }
}

/// How a MAC address is exported; an unknown one is empty.
pub open spec fn csv_mac_spec(mac: Option<Seq<char>>, options: OutputOptions) -> Seq<char> {
    match mac {
        Some(value) => if options.masks() {
            mask24_spec(value)
        } else {
            value
        },
        None => seq![],
    }
}

/// Exports a MAC address.
pub fn csv_mac(mac: &Option<String>, options: OutputOptions) -> (r: String)
    ensures
        r@ == csv_mac_spec(mac.deep_view(), options),
{
    match mac {
        Some(value) => {
            if options.mask_mac() {
                mask_lower_24_bits(value.as_str())
            } else {
                value.clone()
            }
        },
        None => {
            let r = String::new();
            proof {
                assert(r@ =~= seq![]);
            }
            r
        },
    }
}

/// Which characters may stand next to a MAC address within a text.
#[derive(Clone, Copy, Debug, PartialEq, Eq, Structural)]
pub enum MacBoundary {
    /// Neither digits nor separators.
    Strict,
    /// No digits.
    Relaxed,
}

/// The character may stand next to a MAC address.
pub open spec fn is_boundary(c: char, boundary: MacBoundary) -> bool {
    match boundary {
        MacBoundary::Strict => !text::is_hex_digit(c) && c != ':' && c != '-',
        MacBoundary::Relaxed => !text::is_hex_digit(c),
    }
}

/// Reports whether a character may stand next to a MAC address.
fn mac_boundary(c: char, boundary: MacBoundary) -> (r: bool)
    ensures
        r == is_boundary(c, boundary),
{
    match boundary {
        MacBoundary::Strict => !hex_digit(c) && c != ':' && c != '-',
        MacBoundary::Relaxed => !hex_digit(c),
    }
}

/// Six pairs of digits with the same separator between them.
pub open spec fn separated_form(s: Seq<char>) -> bool {
    s.len() == 17 && (s[2] == ':' || s[2] == '-') && forall|i: int|
        0 <= i < 17 ==> if i % 3 == 2 {
            #[trigger] s[i] == s[2]
        } else {
            text::is_hex_digit(s[i])
        }
}

/// A MAC address with separators stands at a position of a text.
pub open spec fn separated_at(s: Seq<char>, i: int, boundary: MacBoundary) -> bool {
    i + 17 <= s.len() && (i > 0 ==> is_boundary(s[i - 1], boundary)) && separated_form(
        s.subrange(i, i + 17),
    ) && (i + 17 < s.len() ==> is_boundary(s[i + 17], boundary))
}

/// The rest of a text from a position, with MAC addresses that have separators masked.
pub open spec fn mask_separated_from(s: Seq<char>, i: int, boundary: MacBoundary) -> Seq<char>
    decreases s.len() - i,
{
    if i < 0 || i >= s.len() {
        seq![]
    } else if separated_at(s, i, boundary) {
        mask24_spec(s.subrange(i, i + 17)) + mask_separated_from(s, i + 17, boundary)
    } else {
        seq![s[i]] + mask_separated_from(s, i + 1, boundary)
    }
}

/// Reports whether a MAC address with separators stands at a position.
fn separated_mac_at(s: &[char], i: usize, boundary: MacBoundary) -> (r: bool)
    requires
        i < s@.len(),
    ensures
        r == separated_at(s@, i as int, boundary),
{
    let total: usize = s.len();
    if total - i < 17 {
        return false;
    }
    if i > 0 && !mac_boundary(s[i - 1], boundary) {
        return false;
    }
    let ghost sub = s@.subrange(i as int, i + 17);
    let separator = s[i + 2];
    if separator != ':' && separator != '-' {
        proof {
            assert(sub[2] == separator);
        }
        return false;
    }
    let mut k: usize = 0;
    while k < 17
        invariant
            k <= 17,
            total == s@.len(),
            i + 17 <= total,
            sub == s@.subrange(i as int, i + 17),
            separator == s@[i + 2],
            separator == ':' || separator == '-',
            forall|m: int|
                0 <= m < k ==> if m % 3 == 2 {
                    #[trigger] sub[m] == separator
                } else {
                    text::is_hex_digit(sub[m])
                },
        decreases 17 - k,
    {
        proof {
            assert(sub[k as int] == s@[i + k]);
            assert(sub[2] == separator);
        }
        if k % 3 == 2 {
            if s[i + k] != separator {
                return false;
            }
        } else if !hex_digit(s[i + k]) {
            return false;
        }
        k = k + 1;
    }
    proof {
        assert(sub[2] == separator);
        assert(separated_form(sub));
    }
    if total - i > 17 && !mac_boundary(s[i + 17], boundary) {
        return false;
    }
    true
}

/// Masks the MAC addresses with separators of a text.
fn mask_separated_macs(s: &[char], boundary: MacBoundary) -> (r: String)
    ensures
        r@ == mask_separated_from(s@, 0, boundary),
{
    let mut out: String = String::new();
    let mut i: usize = 0;
    let total: usize = s.len();
    proof {
        assert(out@ + mask_separated_from(s@, 0, boundary) =~= mask_separated_from(
            s@,
            0,
            boundary,
        ));
    }
    while i < total
        invariant
            i <= total,
            total == s@.len(),
            mask_separated_from(s@, 0, boundary) == out@ + mask_separated_from(
                s@,
                i as int,
                boundary,
            ),
        decreases total - i,
    {
        let ghost before = out@;
        if separated_mac_at(s, i, boundary) {
            let mac = vstd::slice::slice_subrange(s, i, i + 17);
            let masked = mask_lower_24_bits(text(mac).as_str());
            out.append(masked.as_str());
            proof {
                let rest = mask_separated_from(s@, i + 17, boundary);
                assert(before + (masked@ + rest) =~= out@ + rest);
            }
            i = i + 17;
        } else {
            out.push(s[i]);
            proof {
                let rest = mask_separated_from(s@, i + 1, boundary);
                assert(before + (seq![s@[i as int]] + rest) =~= out@ + rest);
            }
            i = i + 1;
        }
    }
    proof {
        assert(out@ + Seq::<char>::empty() =~= out@);
    }
    out
}

/// Twelve digits stand at a position of a text, with no digit next to them.
pub open spec fn compact_at(s: Seq<char>, i: int) -> bool {
    i + 12 <= s.len() && (i > 0 ==> !text::is_hex_digit(s[i - 1])) && text::all_hex(s.subrange(i, i + 12)) && (i
        + 12 < s.len() ==> !text::is_hex_digit(s[i + 12]))
}

/// The rest of a text from a position, with MAC addresses without separators masked.
pub open spec fn mask_compact_from(s: Seq<char>, i: int) -> Seq<char>
    decreases s.len() - i,
{
    if i < 0 || i >= s.len() {
        seq![]
    } else if compact_at(s, i) {
        mask24_spec(s.subrange(i, i + 12)) + mask_compact_from(s, i + 12)
    } else {
        seq![s[i]] + mask_compact_from(s, i + 1)
    }
}

/// Reports whether twelve digits stand at a position.
fn compact_mac_token_at(s: &[char], i: usize) -> (r: bool)
    requires
        i < s@.len(),
    ensures
        r == compact_at(s@, i as int),
{
    let total: usize = s.len();
    if total - i < 12 {
        return false;
    }
    if i > 0 && hex_digit(s[i - 1]) {
        return false;
    }
    if !only_hex(vstd::slice::slice_subrange(s, i, i + 12)) {
        return false;
    }
    total - i == 12 || !hex_digit(s[i + 12])
}

/// Masks the MAC addresses without separators of a text.
fn mask_compact_mac_tokens(s: &[char]) -> (r: String)
    ensures
        r@ == mask_compact_from(s@, 0),
{
    let mut out: String = String::new();
    let mut i: usize = 0;
    let total: usize = s.len();
    proof {
        assert(out@ + mask_compact_from(s@, 0) =~= mask_compact_from(s@, 0));
    }
    while i < total
        invariant
            i <= total,
            total == s@.len(),
            mask_compact_from(s@, 0) == out@ + mask_compact_from(s@, i as int),
        decreases total - i,
    {
        let ghost before = out@;
        if compact_mac_token_at(s, i) {
            let mac = vstd::slice::slice_subrange(s, i, i + 12);
            let masked = mask_lower_24_bits(text(mac).as_str());
            out.append(masked.as_str());
            proof {
                let rest = mask_compact_from(s@, i + 12);
                assert(before + (masked@ + rest) =~= out@ + rest);
            }
            i = i + 12;
        } else {
            out.push(s[i]);
            proof {
                let rest = mask_compact_from(s@, i + 1);
                assert(before + (seq![s@[i as int]] + rest) =~= out@ + rest);
            }
            i = i + 1;
        }
    }
    proof {
        assert(out@ + Seq::<char>::empty() =~= out@);
    }
    out
}

/// A text with every MAC address in it masked, with separators or without.
pub open spec fn mask_identity_spec(s: Seq<char>) -> Seq<char> {
    mask_compact_from(mask_separated_from(s, 0, MacBoundary::Relaxed), 0)
}

/// Masks every MAC address in a text.
pub fn mask_identity_text(value: &str) -> (r: String)
    ensures
        r@ == mask_identity_spec(value@),
{
    let separated = mask_separated_macs(chars(value).as_slice(), MacBoundary::Relaxed);
    mask_compact_mac_tokens(chars(separated.as_str()).as_slice())
}

/// How a text that names a device is shown.
pub open spec fn display_identity_spec(value: Seq<char>, options: OutputOptions) -> Seq<char> {
    if options.masks() {
        mask_identity_spec(value)
    } else {
        value
    }
}

/// Shows a text that names a device.
pub fn display_identity(value: &str, options: OutputOptions) -> (r: String)
    ensures
        r@ == display_identity_spec(value@, options),
{
    if options.mask_mac() {
        mask_identity_text(value)
    } else {
        owned(value)
    }
}

/// The fact may hold a MAC address, by its key.
pub open spec fn mac_key(key: Seq<char>) -> bool {
    let low = text::lower_spec(key);
    low == "mac"@ || text::ends_with_spec(low, "_mac"@) || low == "chassis_id"@ || low == "port_id"@
        || low == "client_id"@
}

/// Reports whether a fact may hold a MAC address.
fn evidence_key_may_contain_mac(key: &str) -> (r: bool)
    ensures
        r == mac_key(key@),
{
    let low = lower(chars(key).as_slice());
    let low = low.as_slice();
    is_text(low, "mac") || ends_with(low, "_mac") || is_text(low, "chassis_id") || is_text(
        low,
        "port_id",
    ) || is_text(low, "client_id")
}

/// Seven pairs of digits, the first of which says that a MAC address follows.
pub open spec fn client_id_parts(parts: Seq<Seq<char>>) -> bool {
    parts.len() == 7 && text::lower_spec(parts[0]) == "01"@ && forall|i: int|
        0 <= i < 7 ==> (#[trigger] parts[i]).len() == 2 && text::all_hex(parts[i])
}

/// A client identifier that holds a MAC address, masked.
pub open spec fn mask_client_id_spec(value: Seq<char>) -> Option<Seq<char>> {
    let t = text::trim_spec(value);
    let colons = text::split_char_spec(t, ':');
    let hyphens = text::split_char_spec(t, '-');
    if client_id_parts(colons) {
        Some("01:"@ + mask24_spec(text::join_spec(colons.skip(1), ":"@)))
    } else if client_id_parts(hyphens) {
        Some("01:"@ + mask24_spec(text::join_spec(hyphens.skip(1), ":"@)))
    } else if t.len() == 14 && text::starts_with_spec(t, "01"@) && text::all_hex(t) {
        Some("01:"@ + mask24_spec(t.skip(2)))
    } else {
        None
    }
}

/// Masks a client identifier that has separators.
fn mask_separated_client_id(t: &[char], separator: char) -> (r: Option<String>)
    ensures
        r.deep_view() == ({
            let parts = text::split_char_spec(t@, separator);
            if client_id_parts(parts) {
                Some("01:"@ + mask24_spec(text::join_spec(parts.skip(1), ":"@)))
            } else {
                None
            }
        }),
{
    let parts = split_char(t, separator);
    let ghost views = text::slice_views(parts@);
    if parts.len() != 7 {
        return None;
    }
    proof {
        assert(views[0] == parts@[0]@);
    }
    if !is_text(lower(parts[0]).as_slice(), "01") {
        return None;
    }
    let mut rest: Vec<String> = Vec::new();
    let mut i: usize = 0;
    while i < 7
        invariant
            i <= 7,
            parts@.len() == 7,
            views == text::slice_views(parts@),
            views == text::split_char_spec(t@, separator),
            forall|k: int| 0 <= k < i ==> (#[trigger] views[k]).len() == 2 && text::all_hex(views[k]),
            rest@.len() == (if i == 0 {
                0
            } else {
                i - 1
            }),
            forall|k: int| 0 <= k < rest@.len() ==> (#[trigger] rest@[k])@ == views[k + 1],
        decreases 7 - i,
    {
        proof {
            assert(views[i as int] == parts@[i as int]@);
        }
        if parts[i].len() != 2 || !only_hex(parts[i]) {
            return None;
        }
        if i > 0 {
            rest.push(text(parts[i]));
        }
        i = i + 1;
    }
    proof {
        assert(client_id_parts(views));
        assert(rest.deep_view() =~= views.skip(1));
    }
    Some(concat("01:", mask_lower_24_bits(join(&rest, ":").as_str()).as_str()))
}

/// Masks a client identifier that holds a MAC address.
fn mask_dhcp_mac_client_id(value: &str) -> (r: Option<String>)
    ensures
        r.deep_view() == mask_client_id_spec(value@),
{
    let c = chars(value);
    let t = trim(c.as_slice());
    if let Some(masked) = mask_separated_client_id(t, ':') {
        return Some(masked);
    }
    if let Some(masked) = mask_separated_client_id(t, '-') {
        return Some(masked);
    }
    if t.len() == 14 && starts_with(t, "01") && only_hex(t) {
        let rest = vstd::slice::slice_subrange(t, 2, t.len());
        proof {
            assert(rest@ =~= t@.skip(2));
        }
        return Some(concat("01:", mask_lower_24_bits(text(rest).as_str()).as_str()));
    }
    None
}

/// A fact with the MAC address in it masked, where its key says that it may hold one.
pub open spec fn mask_fact_spec(key: Seq<char>, value: Seq<char>) -> Seq<char> {
    let client = mask_client_id_spec(value);
    let separated = mask_separated_from(value, 0, MacBoundary::Strict);
    let t = text::trim_spec(value);
    if !mac_key(key) {
        value
    } else if text::lower_spec(key) == "client_id"@ && client is Some {
        client->0
    } else if separated != value {
        separated
    } else if t.len() == 12 && text::all_hex(t) {
        mask24_spec(t)
    } else {
        value
    }
}

/// Masks the MAC address in a fact.
fn mask_mac_evidence_value(key: &str, value: &str) -> (r: String)
    ensures
        r@ == mask_fact_spec(key@, value@),
{
    if !evidence_key_may_contain_mac(key) {
        return owned(value);
    }
    if is_text(lower(chars(key).as_slice()).as_slice(), "client_id") {
        if let Some(masked) = mask_dhcp_mac_client_id(value) {
            return masked;
        }
    }
    let c = chars(value);
    let separated = mask_separated_macs(c.as_slice(), MacBoundary::Strict);
    if !same(chars(separated.as_str()).as_slice(), c.as_slice()) {
        return separated;
    }
    let t = trim(c.as_slice());
    if t.len() == 12 && only_hex(t) {
        return mask_lower_24_bits(text(t).as_str());
    }
    owned(value)
}

/// An optional text with every MAC address in it masked.
pub open spec fn mask_opt(v: Option<Seq<char>>) -> Option<Seq<char>> {
    match v {
        Some(v) => Some(mask_identity_spec(v)),
        None => None,
    }
}

/// A guess with every MAC address in it masked.
pub open spec fn mask_guess(g: Option<GuessView>) -> Option<GuessView> {
    match g {
        Some(g) => Some(GuessView { value: mask_identity_spec(g.value), ..g }),
        None => None,
    }
}

/// A device with every MAC address in it masked.
pub open spec fn mask_device_spec(d: DeviceView) -> DeviceView {
    DeviceView {
        mac: match d.mac {
            Some(mac) => Some(mask24_spec(mac)),
            None => None,
        },
        vendor: mask_opt(d.vendor),
        hostname: mask_opt(d.hostname),
        names: d.names.map_values(
            |n: NameEvidenceView| NameEvidenceView { name: mask_identity_spec(n.name), ..n },
        ),
        make: mask_guess(d.make),
        model: mask_guess(d.model),
        os: mask_guess(d.os),
        device_type: mask_guess(d.device_type),
        services: d.services.map_values(
            |s: ServiceEvidenceView| ServiceEvidenceView { name: mask_identity_spec(s.name), ..s },
        ),
        evidence: d.evidence.map_values(
            |e: EvidenceView| EvidenceView { value: mask_fact_spec(e.key, e.value), ..e },
        ),
        ..d
    }
}

/// Masks an optional text.
fn mask_optional_identity(v: &Option<String>) -> (r: Option<String>)
    ensures
        r.deep_view() == mask_opt(v.deep_view()),
{
    match v {
        Some(v) => Some(mask_identity_text(v.as_str())),
        None => None,
    }
}

/// Masks a guess.
fn mask_guess_identity(g: &Option<Guess>) -> (r: Option<Guess>)
    ensures
        r.deep_view() == mask_guess(g.deep_view()),
{
    match g {
        Some(g) => Some(
            Guess {
                value: mask_identity_text(g.value.as_str()),
                source: g.source.clone(),
                confidence: g.confidence,
            },
        ),
        None => None,
    }
}

/// Masks names.
fn mask_names(all: &Vec<NameEvidence>) -> (r: Vec<NameEvidence>)
    ensures
        r.deep_view() == all.deep_view().map_values(
            |n: NameEvidenceView| NameEvidenceView { name: mask_identity_spec(n.name), ..n },
        ),
{
    let ghost views = all.deep_view();
    let mut out: Vec<NameEvidence> = Vec::new();
    let mut i: usize = 0;
    while i < all.len()
        invariant
            i <= all@.len(),
            views == all.deep_view(),
            out@.len() == i,
            forall|k: int|
                0 <= k < i ==> (#[trigger] out@[k])@ == (NameEvidenceView {
                    name: mask_identity_spec(views[k].name),
                    ..views[k]
                }),
        decreases all@.len() - i,
    {
        out.push(
            NameEvidence {
                name: mask_identity_text(all[i].name.as_str()),
                source: all[i].source.clone(),
                confidence: all[i].confidence,
            },
        );
        i = i + 1;
    }
    proof {
        assert(out.deep_view() =~= views.map_values(
            |n: NameEvidenceView| NameEvidenceView { name: mask_identity_spec(n.name), ..n },
        ));
    }
    out
}

/// Masks services.
fn mask_services(all: &Vec<ServiceEvidence>) -> (r: Vec<ServiceEvidence>)
    ensures
        r.deep_view() == all.deep_view().map_values(
            |s: ServiceEvidenceView| ServiceEvidenceView { name: mask_identity_spec(s.name), ..s },
        ),
{
    let ghost views = all.deep_view();
    let mut out: Vec<ServiceEvidence> = Vec::new();
    let mut i: usize = 0;
    while i < all.len()
        invariant
            i <= all@.len(),
            views == all.deep_view(),
            out@.len() == i,
            forall|k: int|
                0 <= k < i ==> (#[trigger] out@[k])@ == (ServiceEvidenceView {
                    name: mask_identity_spec(views[k].name),
                    ..views[k]
                }),
        decreases all@.len() - i,
    {
        out.push(
            ServiceEvidence {
                name: mask_identity_text(all[i].name.as_str()),
                source: all[i].source.clone(),
                port: all[i].port,
                confidence: all[i].confidence,
            },
        );
        i = i + 1;
    }
    proof {
        assert(out.deep_view() =~= views.map_values(
            |s: ServiceEvidenceView| ServiceEvidenceView { name: mask_identity_spec(s.name), ..s },
        ));
    }
    out
}

/// Masks facts.
fn mask_facts(all: &Vec<Evidence>) -> (r: Vec<Evidence>)
    ensures
        r.deep_view() == all.deep_view().map_values(
            |e: EvidenceView| EvidenceView { value: mask_fact_spec(e.key, e.value), ..e },
        ),
{
    let ghost views = all.deep_view();
    let mut out: Vec<Evidence> = Vec::new();
    let mut i: usize = 0;
    while i < all.len()
        invariant
            i <= all@.len(),
            views == all.deep_view(),
            out@.len() == i,
            forall|k: int|
                0 <= k < i ==> (#[trigger] out@[k])@ == (EvidenceView {
                    value: mask_fact_spec(views[k].key, views[k].value),
                    ..views[k]
                }),
        decreases all@.len() - i,
    {
        out.push(
            Evidence {
                source: all[i].source.clone(),
                key: all[i].key.clone(),
                value: mask_mac_evidence_value(all[i].key.as_str(), all[i].value.as_str()),
                confidence: all[i].confidence,
            },
        );
        i = i + 1;
    }
    proof {
        assert(out.deep_view() =~= views.map_values(
            |e: EvidenceView| EvidenceView { value: mask_fact_spec(e.key, e.value), ..e },
        ));
    }
    out
}

/// Masks every MAC address in a device.
fn mask_device(device: &Device) -> (r: Device)
    ensures
        r@ == mask_device_spec(device@),
{
    let mut r = device.clone();
    if let Some(mac) = &device.mac {
        r.mac = Some(mask_lower_24_bits(mac.as_str()));
    }
    r.vendor = mask_optional_identity(&device.vendor);
    r.hostname = mask_optional_identity(&device.hostname);
    r.names = mask_names(&device.names);
    r.make = mask_guess_identity(&device.make);
    r.model = mask_guess_identity(&device.model);
    r.os = mask_guess_identity(&device.os);
    r.device_type = mask_guess_identity(&device.device_type);
    r.services = mask_services(&device.services);
    r.evidence = mask_facts(&device.evidence);
    r
}

/// The devices as they are shown.
pub open spec fn shown_devices(devices: Seq<DeviceView>, options: OutputOptions) -> Seq<DeviceView> {
    if options.masks() {
        devices.map_values(|d: DeviceView| mask_device_spec(d))
    } else {
        devices
    }
}

/// The devices as they are shown.
pub fn masked_devices(devices: &Vec<Device>, options: OutputOptions) -> (r: Vec<Device>)
    ensures
        r.deep_view() == shown_devices(devices.deep_view(), options),
{
    if !options.mask_mac() {
        let r = devices.clone();
        proof {
            assert(r.deep_view() =~= devices.deep_view());
        }
        return r;
    }
    let ghost views = devices.deep_view();
    let mut out: Vec<Device> = Vec::new();
    let mut i: usize = 0;
    while i < devices.len()
        invariant
            i <= devices@.len(),
            views == devices.deep_view(),
            out@.len() == i,
            forall|k: int| 0 <= k < i ==> (#[trigger] out@[k])@ == mask_device_spec(views[k]),
        decreases devices@.len() - i,
    {
        out.push(mask_device(&devices[i]));
        i = i + 1;
    }
    proof {
        assert(out.deep_view() =~= views.map_values(|d: DeviceView| mask_device_spec(d)));
    }
    out
}

/// A scan result as it is shown. The result itself keeps its MAC addresses.
pub fn masked_scan_result(result: &ScanResult, options: OutputOptions) -> (r: ScanResult)
    ensures
        r@ == (ScanResultView {
            devices: shown_devices(result@.devices, options),
            ..result@
        }),
{
    let mut r = result.clone();
    r.devices = masked_devices(&result.devices, options);
    r
}

/// The vendor half of a MAC address in lower case: the first three of six parts, or the
/// first six of twelve digits.
pub open spec fn vendor_half(mac: Seq<char>) -> Option<(Seq<char>, Seq<char>, Seq<char>)> {
    let parts = mac_parts(mac);
    let hex = text::hex_digits_spec(mac);
    if parts.len() == 6 {
        Some(
            (text::lower_spec(parts[0]), text::lower_spec(parts[1]), text::lower_spec(parts[2])),
        )
    } else if hex.len() == 12 {
        Some((hex.subrange(0, 2), hex.subrange(2, 4), hex.subrange(4, 6)))
    } else {
        None
    }
}

/// Two MAC addresses with the same vendor half look the same once they are masked, in
/// whatever form they are written: nothing of the other half is left.
pub proof fn law_masking_hides_the_lower_half(a: Seq<char>, b: Seq<char>)
    requires
        vendor_half(a) is Some,
        vendor_half(a) == vendor_half(b),
    ensures
        mask24_spec(a) == mask24_spec(b),
{
    lemma_mask_of_half(a);
    lemma_mask_of_half(b);
}

/// The hexadecimal digits of a text are in lower case and no separators.
proof fn lemma_hex_plain(s: Seq<char>, i: int)
    requires
        0 <= i < text::hex_digits_spec(s).len(),
    ensures
        ({
            let c = text::hex_digits_spec(s)[i];
            text::lower_char(c) == c && c != ':' && c != '-'
        }),
    decreases s.len(),
{
    let front = text::hex_digits_spec(s.drop_last());
    if i < front.len() {
        lemma_hex_plain(s.drop_last(), i);
    }
}

/// A pair of the hexadecimal digits of a text is in lower case and holds no separator.
proof fn lemma_hex_pair(s: Seq<char>, i: int)
    requires
        0 <= i,
        i + 2 <= text::hex_digits_spec(s).len(),
    ensures
        ({
            let p = text::hex_digits_spec(s).subrange(i, i + 2);
            text::lower_spec(p) == p && !p.contains(':') && !p.contains('-')
        }),
{
    let p = text::hex_digits_spec(s).subrange(i, i + 2);
    lemma_hex_plain(s, i);
    lemma_hex_plain(s, i + 1);
    assert(text::lower_spec(p) =~= p);
}

/// A masked MAC address is its vendor half with the rest masked.
proof fn lemma_mask_of_half(mac: Seq<char>)
    requires
        vendor_half(mac) is Some,
    ensures
        ({
            let (a, b, c) = vendor_half(mac)->0;
            &&& mask24_spec(mac) == half_masked(a, b, c)
            &&& text::lower_spec(a) == a && text::lower_spec(b) == b && text::lower_spec(c) == c
            &&& !a.contains(':') && !b.contains(':') && !c.contains(':')
            &&& !a.contains('-') && !b.contains('-') && !c.contains('-')
        }),
{
    if mac_parts(mac).len() == 6 {
        lemma_part(mac, 0);
        lemma_part(mac, 1);
        lemma_part(mac, 2);
    } else {
        lemma_hex_pair(mac, 0);
        lemma_hex_pair(mac, 2);
        lemma_hex_pair(mac, 4);
    }
}

/// Without masking everything is shown as it is.
pub proof fn law_full_display_changes_nothing(devices: Seq<DeviceView>, value: Seq<char>)
    ensures
        shown_devices(devices, OutputOptions { mac: MacAddressDisplay::Full }) == devices,
        display_identity_spec(value, OutputOptions { mac: MacAddressDisplay::Full }) == value,
        display_mac_spec(Some(value), OutputOptions { mac: MacAddressDisplay::Full }) == value,
{
}

/// Two guesses come from the same source with the same confidence, or both are missing.
pub open spec fn same_guess_shape(a: Option<GuessView>, b: Option<GuessView>) -> bool {
    match (a, b) {
        (Some(a), Some(b)) => a.source == b.source && a.confidence == b.confidence,
        (None, None) => true,
        _ => false,
    }
}

/// Masking changes texts only: the addresses, the times, the number of facts, who
/// reported them, and how confident they are stay.
pub proof fn law_masking_keeps_the_shape(d: DeviceView)
    ensures
        ({
            let m = mask_device_spec(d);
            &&& m.ip == d.ip && m.interface == d.interface
            &&& m.first_seen == d.first_seen && m.last_seen == d.last_seen
            &&& m.names.len() == d.names.len()
            &&& m.services.len() == d.services.len()
            &&& m.evidence.len() == d.evidence.len()
            &&& forall|i: int|
                0 <= i < d.names.len() ==> (#[trigger] m.names[i]).source == d.names[i].source
                    && m.names[i].confidence == d.names[i].confidence
            &&& forall|i: int|
                0 <= i < d.services.len() ==> (#[trigger] m.services[i]).source
                    == d.services[i].source && m.services[i].port == d.services[i].port
                    && m.services[i].confidence == d.services[i].confidence
            &&& forall|i: int|
                0 <= i < d.evidence.len() ==> (#[trigger] m.evidence[i]).source
                    == d.evidence[i].source && m.evidence[i].key == d.evidence[i].key
                    && m.evidence[i].confidence == d.evidence[i].confidence
            &&& same_guess_shape(m.make, d.make)
            &&& same_guess_shape(m.model, d.model)
            &&& same_guess_shape(m.os, d.os)
            &&& same_guess_shape(m.device_type, d.device_type)
            &&& m.identity_confidence() == d.identity_confidence()
            &&& m.mac is Some == d.mac is Some
            &&& m.vendor is Some == d.vendor is Some
            &&& m.hostname is Some == d.hostname is Some
        }),
{
    let m = mask_device_spec(d);
    assert(m.names.map_values(|n: NameEvidenceView| n.confidence) =~= d.names.map_values(
        |n: NameEvidenceView| n.confidence,
    ));
    assert(m.services.map_values(|s: ServiceEvidenceView| s.confidence) =~= d.services.map_values(
        |s: ServiceEvidenceView| s.confidence,
    ));
    assert(m.evidence.map_values(|e: EvidenceView| e.confidence) =~= d.evidence.map_values(
        |e: EvidenceView| e.confidence,
    ));
}

/// A part of a MAC address in lower case holds no separator.
proof fn lemma_part(mac: Seq<char>, i: int)
    requires
        0 <= i < mac_parts(mac).len(),
    ensures
        !text::lower_spec(mac_parts(mac)[i]).contains(':'),
        !text::lower_spec(mac_parts(mac)[i]).contains('-'),
        text::lower_spec(text::lower_spec(mac_parts(mac)[i])) == text::lower_spec(mac_parts(mac)[i]),
{
    let s = text::replace_char_spec(mac, '-', ':');
    let p = mac_parts(mac)[i];
    text::lemma_split_parts(s, ':', i);
    if text::lower_spec(p).contains(':') {
        let m = choose|m: int| 0 <= m < p.len() && text::lower_spec(p)[m] == ':';
        assert(p[m] == ':');
    }
    if text::lower_spec(p).contains('-') {
        let m = choose|m: int| 0 <= m < p.len() && text::lower_spec(p)[m] == '-';
        assert(p[m] == '-');
        assert(p.contains('-'));
        assert(s.contains('-'));
        let n = choose|n: int| 0 <= n < s.len() && s[n] == '-';
        assert(s[n] != '-');
    }
    assert(text::lower_spec(text::lower_spec(p)) =~= text::lower_spec(p));
}

/// Masking a masked MAC address changes nothing, nor does masking any other text twice.
pub proof fn law_masking_is_idempotent(mac: Seq<char>)
    ensures
        mask24_spec(mask24_spec(mac)) == mask24_spec(mac),
{
    if let Some((a, b, c)) = vendor_half(mac) {
        lemma_mask_of_half(mac);
        lemma_half_stays(a, b, c);
    }
}

/// Three parts with the rest masked are masked already.
proof fn lemma_half_stays(a: Seq<char>, b: Seq<char>, c: Seq<char>)
    requires
        text::lower_spec(a) == a,
        text::lower_spec(b) == b,
        text::lower_spec(c) == c,
        !a.contains(':') && !b.contains(':') && !c.contains(':'),
        !a.contains('-') && !b.contains('-') && !c.contains('-'),
    ensures
        mask24_spec(half_masked(a, b, c)) == half_masked(a, b, c),
{
    reveal_strlit(":");
    reveal_strlit(":**:**:**");
    let m = half_masked(a, b, c);
    let stars = seq!['*', '*'];
    let tail = stars + seq![':'] + (stars + seq![':'] + stars);
    assert(m =~= a + seq![':'] + (b + seq![':'] + (c + seq![':'] + tail)));
    assert(text::replace_char_spec(m, '-', ':') =~= m) by {
        assert forall|i: int| 0 <= i < m.len() implies m[i] != '-' by {
            if i < a.len() {
                assert(a.contains(a[i]));
            } else if a.len() < i < a.len() + 1 + b.len() {
                assert(b.contains(b[i - a.len() - 1]));
            } else if a.len() + 1 + b.len() < i < a.len() + b.len() + c.len() + 2 {
                assert(c.contains(c[i - a.len() - b.len() - 2]));
            }
        }
    }
    text::lemma_split_front(a, b + seq![':'] + (c + seq![':'] + tail), ':');
    text::lemma_split_front(b, c + seq![':'] + tail, ':');
    text::lemma_split_front(c, tail, ':');
    text::lemma_split_front(stars, stars + seq![':'] + stars, ':');
    text::lemma_split_front(stars, stars, ':');
    text::lemma_split_whole(stars, ':');
    assert(mac_parts(m) =~= seq![a, b, c, stars, stars, stars]);
}

/// Masking a text goes from MAC address to MAC address: what stands before the next one
/// stays as it is, and of the address itself only the vendor half is left.
pub proof fn law_next_mac_of_a_text_is_masked(s: Seq<char>, i: int, k: int, boundary: MacBoundary)
    requires
        0 <= i <= k < s.len(),
        forall|j: int| i <= j < k ==> !separated_at(s, j, boundary),
        separated_at(s, k, boundary),
    ensures
        mask_separated_from(s, i, boundary) == s.subrange(i, k) + mask24_spec(
            s.subrange(k, k + 17),
        ) + mask_separated_from(s, k + 17, boundary),
    decreases k - i,
{
    if i < k {
        law_next_mac_of_a_text_is_masked(s, i + 1, k, boundary);
        assert(s.subrange(i, k) =~= seq![s[i]] + s.subrange(i + 1, k));
        assert(mask_separated_from(s, i, boundary) =~= s.subrange(i, k) + mask24_spec(
            s.subrange(k, k + 17),
        ) + mask_separated_from(s, k + 17, boundary));
    } else {
        assert(s.subrange(i, k) =~= seq![]);
        assert(mask_separated_from(s, i, boundary) =~= s.subrange(i, k) + mask24_spec(
            s.subrange(k, k + 17),
        ) + mask_separated_from(s, k + 17, boundary));
    }
}

/// A text in which no MAC address with separators stands from a position on stays as
/// it is from there.
pub proof fn law_text_without_a_separated_mac_stays(s: Seq<char>, i: int, boundary: MacBoundary)
    requires
        0 <= i <= s.len(),
        forall|j: int| i <= j < s.len() ==> !separated_at(s, j, boundary),
    ensures
        mask_separated_from(s, i, boundary) == s.skip(i),
    decreases s.len() - i,
{
    if i < s.len() {
        law_text_without_a_separated_mac_stays(s, i + 1, boundary);
        assert(s.skip(i) =~= seq![s[i]] + s.skip(i + 1));
    } else {
        assert(s.skip(i) =~= seq![]);
    }
}

/// A text in which no twelve digits stand from a position on stays as it is from there.
proof fn lemma_no_compact_mac(s: Seq<char>, i: int)
    requires
        0 <= i <= s.len(),
        forall|j: int| i <= j < s.len() ==> !compact_at(s, j),
    ensures
        mask_compact_from(s, i) == s.skip(i),
    decreases s.len() - i,
{
    if i < s.len() {
        lemma_no_compact_mac(s, i + 1);
        assert(s.skip(i) =~= seq![s[i]] + s.skip(i + 1));
    } else {
        assert(s.skip(i) =~= seq![]);
    }
}

/// A text in which no MAC address stands, with separators or without, is left alone.
pub proof fn law_other_text_is_left_alone(s: Seq<char>)
    requires
        forall|j: int| 0 <= j < s.len() ==> !separated_at(s, j, MacBoundary::Relaxed),
        forall|j: int| 0 <= j < s.len() ==> !compact_at(s, j),
    ensures
        mask_identity_spec(s) == s,
{
    law_text_without_a_separated_mac_stays(s, 0, MacBoundary::Relaxed);
    assert(s.skip(0) =~= s);
    lemma_no_compact_mac(s, 0);
}

/// Masking the MAC addresses without separators goes from one to the next: what stands
/// before the next one stays as it is, and of the address itself only the vendor half
/// is left.
pub proof fn law_next_compact_mac_of_a_text_is_masked(s: Seq<char>, i: int, k: int)
    requires
        0 <= i <= k < s.len(),
        forall|j: int| i <= j < k ==> !compact_at(s, j),
        compact_at(s, k),
    ensures
        mask_compact_from(s, i) == s.subrange(i, k) + mask24_spec(s.subrange(k, k + 12))
            + mask_compact_from(s, k + 12),
    decreases k - i,
{
    if i < k {
        law_next_compact_mac_of_a_text_is_masked(s, i + 1, k);
        assert(s.subrange(i, k) =~= seq![s[i]] + s.subrange(i + 1, k));
        assert(mask_compact_from(s, i) =~= s.subrange(i, k) + mask24_spec(s.subrange(k, k + 12))
            + mask_compact_from(s, k + 12));
    } else {
        assert(s.subrange(i, k) =~= seq![]);
        assert(mask_compact_from(s, i) =~= s.subrange(i, k) + mask24_spec(s.subrange(k, k + 12))
            + mask_compact_from(s, k + 12));
    }
}

/// So many hexadecimal digits stand at a position of a text.
spec fn digits_at(s: Seq<char>, i: int, n: int) -> bool {
    0 <= i && 0 <= n && i + n <= s.len() && forall|j: int|
        i <= j < i + n ==> text::is_hex_digit(#[trigger] s[j])
}

/// Twelve digits with no digit next to them, by the digits that stand there.
proof fn lemma_compact_digits(s: Seq<char>, i: int)
    requires
        0 <= i,
    ensures
        compact_at(s, i) <==> digits_at(s, i, 12) && !digits_at(s, i, 13) && (i > 0
            ==> !text::is_hex_digit(s[i - 1])),
{
    if i + 12 <= s.len() {
        let t = s.subrange(i, i + 12);
        assert forall|j: int| i <= j < i + 12 implies s[j] == #[trigger] t[j - i] by {}
        if text::all_hex(t) {
            assert forall|j: int| i <= j < i + 12 implies text::is_hex_digit(#[trigger] s[j]) by {
                assert(text::is_hex_digit(t[j - i]));
            }
            assert(digits_at(s, i, 12));
            if i + 12 < s.len() && text::is_hex_digit(s[i + 12]) {
                assert(digits_at(s, i, 13));
            }
        }
        if digits_at(s, i, 12) {
            assert forall|j: int| 0 <= j < 12 implies text::is_hex_digit(#[trigger] t[j]) by {
                assert(text::is_hex_digit(s[i + j]));
            }
        }
    }
}

/// The digits at the front of a text with one more character before it.
proof fn lemma_digits_behind(c: char, rest: Seq<char>, n: int)
    requires
        n >= 1,
    ensures
        digits_at(seq![c] + rest, 0, n) <==> text::is_hex_digit(c) && digits_at(rest, 0, n - 1),
{
    let s = seq![c] + rest;
    assert(s[0] == c);
    if digits_at(s, 0, n) {
        assert forall|j: int| 0 <= j < n - 1 implies text::is_hex_digit(#[trigger] rest[j]) by {
            assert(s[j + 1] == rest[j]);
        }
    }
    if text::is_hex_digit(c) && digits_at(rest, 0, n - 1) {
        assert forall|j: int| 0 <= j < n implies text::is_hex_digit(#[trigger] s[j]) by {
            if j > 0 {
                assert(s[j] == rest[j - 1]);
            }
        }
    }
}

/// The digits of a text from a position, by its first character there.
proof fn lemma_digits_from(s: Seq<char>, i: int, n: int)
    requires
        0 <= i < s.len(),
        n >= 1,
    ensures
        digits_at(s, i, n) <==> text::is_hex_digit(s[i]) && digits_at(s, i + 1, n - 1),
{
}

/// Behind a digit, masking keeps the digits that follow it.
proof fn lemma_digits_stay(s: Seq<char>, i: int, n: int)
    requires
        0 < i <= s.len(),
        text::is_hex_digit(s[i - 1]),
        n >= 0,
    ensures
        digits_at(mask_compact_from(s, i), 0, n) <==> digits_at(s, i, n),
    decreases n,
{
    if n > 0 && i < s.len() {
        assert(!compact_at(s, i));
        lemma_digits_behind(s[i], mask_compact_from(s, i + 1), n);
        lemma_digits_from(s, i, n);
        if text::is_hex_digit(s[i]) {
            lemma_digits_stay(s, i + 1, n - 1);
        }
    }
}

/// Twelve digits have so many hexadecimal digits.
proof fn lemma_hex_count(s: Seq<char>)
    requires
        text::all_hex(s),
    ensures
        text::hex_digits_spec(s).len() == s.len(),
    decreases s.len(),
{
    if s.len() > 0 {
        assert(text::is_hex_digit(s[s.len() - 1]));
        assert forall|i: int| 0 <= i < s.drop_last().len() implies text::is_hex_digit(
            #[trigger] s.drop_last()[i],
        ) by {
            assert(text::is_hex_digit(s[i]));
        }
        lemma_hex_count(s.drop_last());
    }
}

/// What is left of twelve digits: pairs that colons part, and no digit from the fourth
/// pair on.
proof fn lemma_masked_digits(s: Seq<char>)
    requires
        s.len() == 12,
        text::all_hex(s),
    ensures
        mask24_spec(s).len() == 17,
        mask24_spec(s)[2] == ':',
        mask24_spec(s)[5] == ':',
        forall|j: int| 8 <= j < 17 ==> !text::is_hex_digit(#[trigger] mask24_spec(s)[j]),
{
    reveal_strlit(":");
    reveal_strlit(":**:**:**");
    assert(text::replace_char_spec(s, '-', ':') =~= s) by {
        assert forall|i: int| 0 <= i < s.len() implies s[i] != '-' by {
            assert(text::is_hex_digit(s[i]));
        }
    }
    assert(!s.contains(':')) by {
        assert forall|i: int| 0 <= i < s.len() implies s[i] != ':' by {
            assert(text::is_hex_digit(s[i]));
        }
    }
    text::lemma_split_whole(s, ':');
    lemma_hex_count(s);
}

/// Behind a position where masking starts, no twelve digits are left: none that follow
/// another character, and where no digit stands before the position, none at its front.
proof fn lemma_no_compact_left(s: Seq<char>, i: int, p: int)
    requires
        0 <= i <= s.len(),
        0 <= p < mask_compact_from(s, i).len(),
        p == 0 ==> !(i > 0 && text::is_hex_digit(s[i - 1])),
    ensures
        !compact_at(mask_compact_from(s, i), p),
    decreases s.len() - i,
{
    let out = mask_compact_from(s, i);
    lemma_compact_digits(out, p);
    lemma_compact_digits(s, i);
    if compact_at(s, i) {
        let mac = s.subrange(i, i + 12);
        let masked = mask24_spec(mac);
        let rest = mask_compact_from(s, i + 12);
        lemma_masked_digits(mac);
        assert(out == masked + rest);
        if p < 17 {
            if digits_at(out, p, 12) {
                assert(text::is_hex_digit(out[p]));
                assert(out[p] == masked[p]);
                assert(p < 8);
                assert(out[8] == masked[8]);
                assert(text::is_hex_digit(out[8]));
            }
        } else if p == 17 {
            assert(out[17] == rest[0]);
            assert(text::is_hex_digit(s[i + 11]));
            lemma_digits_stay(s, i + 12, 1);
            if digits_at(out, 17, 12) {
                assert(text::is_hex_digit(out[17]));
                assert(digits_at(rest, 0, 1));
                assert(text::is_hex_digit(s[i + 12]));
            }
        } else {
            lemma_no_compact_left(s, i + 12, p - 17);
            lemma_shifted(masked, rest, p - 17);
        }
    } else {
        let rest = mask_compact_from(s, i + 1);
        assert(out == seq![s[i]] + rest);
        if p == 0 {
            lemma_digits_behind(s[i], rest, 12);
            lemma_digits_behind(s[i], rest, 13);
            lemma_digits_from(s, i, 12);
            lemma_digits_from(s, i, 13);
            if text::is_hex_digit(s[i]) {
                lemma_digits_stay(s, i + 1, 11);
                lemma_digits_stay(s, i + 1, 12);
            }
        } else if p == 1 {
            assert(out[0] == s[i]);
            if !text::is_hex_digit(s[i]) {
                lemma_no_compact_left(s, i + 1, 0);
                lemma_compact_digits(rest, 0);
                lemma_front_shifted(seq![s[i]], rest, 12);
                lemma_front_shifted(seq![s[i]], rest, 13);
            }
        } else {
            lemma_no_compact_left(s, i + 1, p - 1);
            lemma_shifted(seq![s[i]], rest, p - 1);
        }
    }
}

/// The digits at the front of a text stand behind whatever is put before it.
proof fn lemma_front_shifted(a: Seq<char>, b: Seq<char>, n: int)
    ensures
        digits_at(a + b, a.len() as int, n) <==> digits_at(b, 0, n),
{
    let s = a + b;
    if digits_at(s, a.len() as int, n) {
        assert forall|j: int| 0 <= j < n implies text::is_hex_digit(#[trigger] b[j]) by {
            assert(s[a.len() + j] == b[j]);
        }
    }
    if digits_at(b, 0, n) {
        assert forall|j: int| a.len() <= j < a.len() + n implies text::is_hex_digit(
            #[trigger] s[j],
        ) by {
            assert(s[j] == b[j - a.len()]);
        }
    }
}

/// Twelve digits behind the front of a text are such digits whatever is put before it.
proof fn lemma_shifted(a: Seq<char>, b: Seq<char>, p: int)
    requires
        0 < p,
    ensures
        compact_at(a + b, a.len() + p) <==> compact_at(b, p),
{
    let s = a + b;
    if p + 12 <= b.len() {
        assert(s.subrange(a.len() + p, a.len() + p + 12) =~= b.subrange(p, p + 12));
    }
}

/// Once a text is masked, no MAC address without separators stands in it any more.
pub proof fn law_no_compact_mac_is_left(s: Seq<char>, p: int)
    requires
        0 <= p < mask_identity_spec(s).len(),
    ensures
        !compact_at(mask_identity_spec(s), p),
{
    lemma_no_compact_left(mask_separated_from(s, 0, MacBoundary::Relaxed), 0, p);
}

} // verus!
