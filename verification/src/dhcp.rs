//! DHCP lease ingestion.
//!
//! Lease files are a passive enrichment source: they can recover hostnames,
//! client identifiers, vendor classes, and sometimes MAC addresses without
//! probing a host. Parsers are intentionally permissive because distributions
//! and DHCP clients vary their on-disk formats.

pub mod lines;

use crate::addr::{parse_ip, IpAddr};
use crate::addr;
use crate::model::Timestamp;
use crate::same::Same;
use crate::sort::{sorted, SortOrder};
use crate::sort;
use crate::text::{
    chars, concat3, concat4, contains, digit, find_char, find_text, hex_digits, is_text, join, less,
    lines, lower, owned, parse_signed, replace_char, starts_with, strip_prefix, text, trim,
    trim_char, trim_end_char, words,
};
use crate::text;
use vstd::prelude::*;

verus! {

/// When a lease ends: whole seconds since 1970-01-01 00:00 UTC, and nanoseconds on top.
/// From one second's worth of nanoseconds on it is within the leap second that follows,
/// which comes before the next whole second.
#[derive(Debug, Clone, Copy, PartialEq, Eq, Structural)]
pub struct LeaseInstant {
    pub seconds: i64,
    pub nanos: u32,
}

impl LeaseInstant {
    /// The instant comes after a point in time: in a later second, or later within the
    /// same one.
    pub open spec fn after(self, now: Timestamp) -> bool {
        let second = now as int / 1_000_000_000;
        let rest = now as int % 1_000_000_000;
        self.seconds > second || (self.seconds == second && self.nanos > rest)
    }

    /// Reports whether the instant comes after a point in time.
    pub fn is_after(self, now: Timestamp) -> (r: bool)
        ensures
            r == self.after(now),
    {
        let on_top: i128 = if self.nanos < 1_000_000_000 {
            self.nanos as i128
        } else {
            1_000_000_000
        };
        self.seconds as i128 * 1_000_000_000 + on_top > now
    }
}

/// What a lease says of one host.
#[derive(Debug, PartialEq, Eq)]
pub struct DhcpLease {
    pub ip: IpAddr,
    pub mac: Option<String>,
    pub hostname: Option<String>,
    pub client_id: Option<String>,
    pub vendor_class: Option<String>,
    pub expires_at: Option<LeaseInstant>,
    pub source: Option<String>,
}

/// The mathematical content of a [`DhcpLease`].
#[verifier::ext_equal]
pub struct DhcpLeaseView {
    pub ip: IpAddr,
    pub mac: Option<Seq<char>>,
    pub hostname: Option<Seq<char>>,
    pub client_id: Option<Seq<char>>,
    pub vendor_class: Option<Seq<char>>,
    pub expires_at: Option<LeaseInstant>,
    pub source: Option<Seq<char>>,
}

impl View for DhcpLease {
    type V = DhcpLeaseView;

    open spec fn view(&self) -> DhcpLeaseView {
        DhcpLeaseView {
            ip: self.ip,
            mac: self.mac.deep_view(),
            hostname: self.hostname.deep_view(),
            client_id: self.client_id.deep_view(),
            vendor_class: self.vendor_class.deep_view(),
            expires_at: self.expires_at,
            source: self.source.deep_view(),
        }
    }
}

impl DeepView for DhcpLease {
    type V = DhcpLeaseView;

    open spec fn deep_view(&self) -> DhcpLeaseView {
        self@
    }
}

impl Clone for DhcpLease {
    fn clone(&self) -> (r: Self)
        ensures
            r@ == self@,
    {
        let r = DhcpLease {
            ip: self.ip,
            mac: self.mac.clone(),
            hostname: self.hostname.clone(),
            client_id: self.client_id.clone(),
            vendor_class: self.vendor_class.clone(),
            expires_at: self.expires_at,
            source: self.source.clone(),
        };
        proof {
            assert(r.mac.deep_view() =~= self.mac.deep_view());
            assert(r.hostname.deep_view() =~= self.hostname.deep_view());
            assert(r.client_id.deep_view() =~= self.client_id.deep_view());
            assert(r.vendor_class.deep_view() =~= self.vendor_class.deep_view());
            assert(r.source.deep_view() =~= self.source.deep_view());
        }
        r
    }
}

/// The text of one lease file.
#[derive(Debug, PartialEq, Eq)]
pub struct LeaseFile {
    pub path: String,
    pub text: String,
}

/// The mathematical content of a [`LeaseFile`].
#[verifier::ext_equal]
pub struct LeaseFileView {
    pub path: Seq<char>,
    pub text: Seq<char>,
}

impl View for LeaseFile {
    type V = LeaseFileView;

    open spec fn view(&self) -> LeaseFileView {
        LeaseFileView {
            path: self.path@,
            text: self.text@,
        }
    }
}

impl DeepView for LeaseFile {
    type V = LeaseFileView;

    open spec fn deep_view(&self) -> LeaseFileView {
        self@
    }
}

impl Clone for LeaseFile {
    fn clone(&self) -> (r: Self)
        ensures
            r@ == self@,
    {
        let r = LeaseFile {
            path: self.path.clone(),
            text: self.text.clone(),
        };
        r
    }
}

/// One configured path and what reading it gave: the files below it, or why it could
/// not be read.
pub struct LeaseRead {
    pub path: String,
    pub files: Result<Vec<LeaseFile>, String>,
}

/// The mathematical content of a [`LeaseRead`].
pub struct LeaseReadView {
    pub path: Seq<char>,
    pub files: Result<Seq<LeaseFileView>, Seq<char>>,
}

impl View for LeaseRead {
    type V = LeaseReadView;

    open spec fn view(&self) -> LeaseReadView {
        LeaseReadView {
            path: self.path@,
            files: match self.files {
                Ok(files) => Ok(files.deep_view()),
                Err(e) => Err(e@),
            },
        }
    }
}

impl DeepView for LeaseRead {
    type V = LeaseReadView;

    open spec fn deep_view(&self) -> LeaseReadView {
        self@
    }
}

/// A value without its decoration. Lease files use an empty value, "*" or "-" as
/// placeholders; those are absent so they do not outrank real protocol names later.
pub open spec fn optional_value_spec(value: Seq<char>) -> Option<Seq<char>> {
    let v = text::trim_char_spec(text::trim_end_char_spec(text::trim_spec(value), ';'), '"');
    if v.len() == 0 || v == "*"@ || v == "-"@ {
        None
    } else {
        Some(v)
    }
}

/// Reads a value without its decoration.
fn optional_value(value: &[char]) -> (r: Option<String>)
    ensures
        r.deep_view() == optional_value_spec(value@),
{
    let v = trim_char(trim_end_char(trim(value), ';'), '"');
    if v.len() == 0 || is_text(v, "*") || is_text(v, "-") {
        None
    } else {
        Some(text(v))
    }
}

/// A quoted name without its decoration.
pub open spec fn hostname_value_spec(value: Seq<char>) -> Option<Seq<char>> {
    optional_value_spec(text::trim_char_spec(text::trim_spec(value), '"'))
}

/// Reads a quoted name.
fn hostname_value(value: &[char]) -> (r: Option<String>)
    ensures
        r.deep_view() == hostname_value_spec(value@),
{
    optional_value(trim_char(trim(value), '"'))
}

/// Twelve digits in pairs.
pub open spec fn digit_pairs(h: Seq<char>) -> Seq<Seq<char>> {
    Seq::new(6, |i: int| h.subrange(2 * i, 2 * i + 2))
}

/// A MAC address in colon form, from any text that holds twelve hexadecimal digits.
pub open spec fn lease_mac_spec(value: Seq<char>) -> Option<Seq<char>> {
    let h = text::hex_digits_spec(value);
    if h.len() == 12 {
        Some(text::join_spec(digit_pairs(h), ":"@))
    } else {
        None
    }
}

/// Reads a MAC address.
pub fn normalize_mac(value: &[char]) -> (r: Option<String>)
    ensures
        r.deep_view() == lease_mac_spec(value@),
{
    let h = hex_digits(value);
    if h.len() != 12 {
        return None;
    }
    let mut parts: Vec<String> = Vec::new();
    let mut i: usize = 0;
    while i < 6
        invariant
            i <= 6,
            h@.len() == 12,
            parts@.len() == i,
            forall|k: int|
                0 <= k < i ==> (#[trigger] parts@[k])@ == h@.subrange(2 * k, 2 * k + 2),
        decreases 6 - i,
    {
        let pair = vstd::slice::slice_subrange(h.as_slice(), 2 * i, 2 * i + 2);
        parts.push(text(pair));
        i = i + 1;
    }
    proof {
        assert(parts.deep_view() =~= digit_pairs(h@));
    }
    Some(join(&parts, ":"))
}

/// The hexadecimal digits of two texts in a row.
proof fn lemma_hex_of_both(a: Seq<char>, b: Seq<char>)
    ensures
        text::hex_digits_spec(a + b) == text::hex_digits_spec(a) + text::hex_digits_spec(b),
    decreases b.len(),
{
    if b.len() == 0 {
        assert(a + b =~= a);
        assert(text::hex_digits_spec(a) + text::hex_digits_spec(b) =~= text::hex_digits_spec(a));
    } else {
        lemma_hex_of_both(a, b.drop_last());
        assert((a + b).drop_last() =~= a + b.drop_last());
        assert((a + b).last() == b.last());
        assert(text::hex_digits_spec(a + b) =~= text::hex_digits_spec(a) + text::hex_digits_spec(
            b,
        ));
    }
}

/// Every character is a hexadecimal digit that lowering leaves alone.
spec fn plain_hex(s: Seq<char>) -> bool {
    forall|i: int|
        0 <= i < s.len() ==> text::is_hex_digit(#[trigger] s[i]) && text::lower_char(s[i]) == s[i]
}

/// The hexadecimal digits of a text are plain, and plain digits are their own.
proof fn lemma_plain_hex(s: Seq<char>)
    ensures
        plain_hex(text::hex_digits_spec(s)),
        plain_hex(s) ==> text::hex_digits_spec(s) == s,
    decreases s.len(),
{
    if s.len() > 0 {
        lemma_plain_hex(s.drop_last());
        if plain_hex(s) {
            assert(plain_hex(s.drop_last())) by {
                assert forall|i: int| 0 <= i < s.len() - 1 implies text::is_hex_digit(
                    #[trigger] s.drop_last()[i],
                ) && text::lower_char(s.drop_last()[i]) == s.drop_last()[i] by {
                    assert(s.drop_last()[i] == s[i]);
                }
            }
            assert(s =~= s.drop_last().push(s.last()));
        }
    } else {
        assert(text::hex_digits_spec(s) =~= s);
    }
}

/// A MAC address in colon form stands for itself.
pub proof fn law_lease_mac_is_stable(value: Seq<char>)
    requires
        lease_mac_spec(value) is Some,
    ensures
        lease_mac_spec(lease_mac_spec(value)->0) == lease_mac_spec(value),
        lease_mac_spec(value)->0.len() == 17,
{
    let h = text::hex_digits_spec(value);
    let p = digit_pairs(h);
    let colon = ":"@;
    reveal_strlit(":");
    lemma_plain_hex(value);
    let mac = text::join_spec(p, colon);
    assert(mac =~= p[0] + colon + p[1] + colon + p[2] + colon + p[3] + colon + p[4] + colon
        + p[5]) by {
        reveal_with_fuel(text::join_spec, 6);
        assert(p.drop_last().last() == p[4]);
        assert(p.drop_last().drop_last().last() == p[3]);
        assert(p.drop_last().drop_last().drop_last().last() == p[2]);
        assert(p.drop_last().drop_last().drop_last().drop_last().last() == p[1]);
        assert(p.drop_last().drop_last().drop_last().drop_last().drop_last()[0] == p[0]);
    }
    assert(text::hex_digits_spec(colon) =~= seq![]) by {
        reveal_with_fuel(text::hex_digits_spec, 2);
    }
    assert forall|i: int| 0 <= i < 6 implies text::hex_digits_spec(#[trigger] p[i]) == p[i] by {
        assert forall|k: int| 0 <= k < p[i].len() implies text::is_hex_digit(#[trigger] p[i][k])
            && text::lower_char(p[i][k]) == p[i][k] by {
            assert(p[i][k] == h[2 * i + k]);
        }
        lemma_plain_hex(p[i]);
    }
    let s1 = p[0] + colon + p[1];
    let s2 = s1 + colon + p[2];
    let s3 = s2 + colon + p[3];
    let s4 = s3 + colon + p[4];
    lemma_hex_of_both(p[0] + colon, p[1]);
    lemma_hex_of_both(p[0], colon);
    lemma_hex_of_both(s1 + colon, p[2]);
    lemma_hex_of_both(s1, colon);
    lemma_hex_of_both(s2 + colon, p[3]);
    lemma_hex_of_both(s2, colon);
    lemma_hex_of_both(s3 + colon, p[4]);
    lemma_hex_of_both(s3, colon);
    lemma_hex_of_both(s4 + colon, p[5]);
    lemma_hex_of_both(s4, colon);
    assert(text::hex_digits_spec(mac) =~= h);
}

/// Every character is an ASCII digit.
pub open spec fn all_digits(s: Seq<char>) -> bool {
    forall|i: int| 0 <= i < s.len() ==> text::is_digit(#[trigger] s[i])
}

/// Reports whether every character is an ASCII digit.
fn only_digits(s: &[char]) -> (r: bool)
    ensures
        r == all_digits(s@),
{
    let mut i: usize = 0;
    while i < s.len()
        invariant
            i <= s@.len(),
            forall|k: int| 0 <= k < i ==> text::is_digit(#[trigger] s@[k]),
        decreases s@.len() - i,
    {
        if !digit(s[i]) {
            return false;
        }
        i = i + 1;
    }
    true
}

/// The date and the time of a lease end, as "date time": a leading day of the week
/// is dropped, and "never" has none.
pub open spec fn lease_time_text(value: Seq<char>) -> Option<Seq<char>> {
    let v = text::trim_spec(text::trim_end_char_spec(text::trim_spec(value), ';'));
    let w = text::words_spec(v);
    if text::lower_spec(v) == "never"@ || w.len() == 0 {
        None
    } else if all_digits(w[0]) {
        if w.len() >= 3 {
            Some(w[1] + " "@ + w[2])
        } else {
            None
        }
    } else if w.len() >= 2 {
        Some(w[0] + " "@ + w[1])
    } else {
        None
    }
}

/// The instant that a "year/month/day hour:minute:second" text names in UTC, in whole
/// seconds since the epoch and nanoseconds on top.
pub uninterp spec fn utc_time_spec(text: Seq<char>) -> Option<(i64, u32)>;

/// `chrono::NaiveDateTime::parse_from_str` with "%Y/%m/%d %H:%M:%S" reads a date and a
/// time; `and_utc` gives the seconds since the epoch and the nanoseconds on top, which
/// reach past a whole second where the text names a leap second.
#[verifier::external_body]
fn utc_time(text: &str) -> (r: Option<(i64, u32)>)
    ensures
        r == utc_time_spec(text@),
{
    let time = chrono::NaiveDateTime::parse_from_str(text, "%Y/%m/%d %H:%M:%S").ok()?.and_utc();
    Some((time.timestamp(), time.timestamp_subsec_nanos()))
}

/// The instant of seconds since the epoch and nanoseconds on top. A leap second stays
/// apart from the second that follows it.
pub open spec fn instant_spec(parts: Option<(i64, u32)>) -> Option<LeaseInstant> {
    match parts {
        Some((seconds, nanos)) => Some(LeaseInstant { seconds, nanos }),
        None => None,
    }
}

/// The instant of seconds since the epoch and nanoseconds on top. A leap second stays
/// apart from the second that follows it.
pub fn lease_instant(parts: Option<(i64, u32)>) -> (r: Option<LeaseInstant>)
    ensures
        r == instant_spec(parts),
{
    match parts {
        Some((seconds, nanos)) => Some(LeaseInstant { seconds, nanos }),
        None => None,
    }
}

/// The end of a lease.
pub open spec fn lease_time_spec(value: Seq<char>) -> Option<LeaseInstant> {
    match lease_time_text(value) {
        Some(t) => instant_spec(utc_time_spec(t)),
        None => None,
    }
}

/// Reads the end of a lease.
pub fn parse_isc_lease_time(value: &[char]) -> (r: Option<LeaseInstant>)
    ensures
        r == lease_time_spec(value@),
{
    let v = trim(trim_end_char(trim(value), ';'));
    if is_text(lower(v).as_slice(), "never") {
        return None;
    }
    let w = words(v);
    let ghost views = text::slice_views(w@);
    if w.len() == 0 {
        return None;
    }
    proof {
        assert(views[0] == w@[0]@);
    }
    if only_digits(w[0]) {
        if w.len() < 3 {
            return None;
        }
        proof {
            assert(views[1] == w@[1]@);
            assert(views[2] == w@[2]@);
        }
        lease_instant(utc_time(concat3(text(w[1]).as_str(), " ", text(w[2]).as_str()).as_str()))
    } else {
        if w.len() < 2 {
            return None;
        }
        proof {
            assert(views[1] == w@[1]@);
        }
        lease_instant(utc_time(concat3(text(w[0]).as_str(), " ", text(w[1]).as_str()).as_str()))
    }
}

/// A lease that holds only an address.
pub open spec fn bare_lease(ip: IpAddr) -> DhcpLeaseView {
    DhcpLeaseView {
        ip,
        mac: None,
        hostname: None,
        client_id: None,
        vendor_class: None,
        expires_at: None,
        source: None,
    }
}

/// A lease and the binding state of its block.
pub type IscBlock = (DhcpLeaseView, Option<Seq<char>>);

/// What follows the first occurrence of `p`.
pub open spec fn after_text(s: Seq<char>, p: Seq<char>) -> Option<Seq<char>> {
    match text::text_index(s, p) {
        Some(k) => Some(s.skip(k + p.len())),
        None => None,
    }
}

/// What follows the first occurrence of `p`.
pub fn rest_after<'a>(s: &'a [char], p: &str) -> (r: Option<&'a [char]>)
    ensures
        text::slice_opt(r) == after_text(s@, p@),
{
    let total: usize = s.len();
    match find_text(s, p) {
        Some(k) => {
            let n: usize = chars(p).len();
            proof {
                assert(k + n <= total);
            }
            let rest = vstd::slice::slice_subrange(s, k + n, total);
            proof {
                assert(rest@ =~= s@.skip(k + p@.len()));
            }
            Some(rest)
        },
        None => None,
    }
}

/// The end of a lease, as one of its two keywords gives it.
pub open spec fn ends_value(line: Seq<char>) -> Option<Seq<char>> {
    match text::strip_prefix_spec(line, "ends "@) {
        Some(v) => Some(v),
        None => text::strip_prefix_spec(line, "expire "@),
    }
}

/// A block after one more of its lines.
pub open spec fn with_isc_line(b: IscBlock, raw: Seq<char>) -> IscBlock {
    let line = text::trim_spec(text::trim_end_char_spec(raw, ';'));
    if let Some(v) = text::strip_prefix_spec(line, "hardware ethernet "@) {
        (DhcpLeaseView { mac: lease_mac_spec(v), ..b.0 }, b.1)
    } else if let Some(v) = text::strip_prefix_spec(line, "client-hostname "@) {
        (DhcpLeaseView { hostname: hostname_value_spec(v), ..b.0 }, b.1)
    } else if let Some(v) = text::strip_prefix_spec(line, "option host-name "@) {
        (DhcpLeaseView { hostname: hostname_value_spec(v), ..b.0 }, b.1)
    } else if let Some(v) = text::strip_prefix_spec(line, "uid "@) {
        (
            DhcpLeaseView { client_id: optional_value_spec(text::trim_char_spec(v, '"')), ..b.0 },
            b.1,
        )
    } else if let Some(v) = after_text(line, "vendor-class-identifier ="@) {
        (DhcpLeaseView { vendor_class: hostname_value_spec(v), ..b.0 }, b.1)
    } else if let Some(v) = text::strip_prefix_spec(line, "option vendor-class-identifier "@) {
        (DhcpLeaseView { vendor_class: hostname_value_spec(v), ..b.0 }, b.1)
    } else if let Some(v) = text::strip_prefix_spec(line, "binding state "@) {
        (b.0, Some(text::lower_spec(text::trim_spec(v))))
    } else if let Some(v) = ends_value(line) {
        (DhcpLeaseView { expires_at: lease_time_spec(v), ..b.0 }, b.1)
    } else {
        b
    }
}

/// A block after several lines.
pub open spec fn with_isc_lines(b: IscBlock, all: Seq<Seq<char>>) -> IscBlock
    decreases all.len(),
{
    if all.len() == 0 {
        b
    } else {
        with_isc_line(with_isc_lines(b, all.drop_last()), all.last())
    }
}

/// A lease counts while its binding is active, where that is said, and it has not
/// ended.
pub open spec fn current_spec(
    state: Option<Seq<char>>,
    expires_at: Option<LeaseInstant>,
    now: Timestamp,
) -> bool {
    (state matches Some(s) ==> s == "active"@) && (expires_at matches Some(t) ==> t.after(now))
}

/// Reports whether a lease counts.
pub fn lease_is_current(
    state: &Option<String>,
    expires_at: Option<LeaseInstant>,
    now: Timestamp,
) -> (r: bool)
    ensures
        r == current_spec(state.deep_view(), expires_at, now),
{
    let active = match state {
        Some(s) => is_text(chars(s.as_str()).as_slice(), "active"),
        None => true,
    };
    let unexpired = match expires_at {
        Some(t) => t.is_after(now),
        None => true,
    };
    active && unexpired
}

/// The lease of a block, where it counts.
pub open spec fn isc_body_spec(ip: IpAddr, all: Seq<Seq<char>>, now: Timestamp) -> Option<
    DhcpLeaseView,
> {
    let b = with_isc_lines((bare_lease(ip), None), all);
    if current_spec(b.1, b.0.expires_at, now) {
        Some(b.0)
    } else {
        None
    }
}

/// Takes in one line of a block.
fn apply_isc_line(lease: &mut DhcpLease, state: &mut Option<String>, raw: &[char])
    ensures
        (final(lease)@, final(state).deep_view()) == with_isc_line(
            (old(lease)@, old(state).deep_view()),
            raw@,
        ),
{
    let line = trim(trim_end_char(raw, ';'));
    if let Some(v) = strip_prefix(line, "hardware ethernet ") {
        lease.mac = normalize_mac(v);
    } else if let Some(v) = strip_prefix(line, "client-hostname ") {
        lease.hostname = hostname_value(v);
    } else if let Some(v) = strip_prefix(line, "option host-name ") {
        lease.hostname = hostname_value(v);
    } else if let Some(v) = strip_prefix(line, "uid ") {
        lease.client_id = optional_value(trim_char(v, '"'));
    } else if let Some(v) = rest_after(line, "vendor-class-identifier =") {
        lease.vendor_class = hostname_value(v);
    } else if let Some(v) = strip_prefix(line, "option vendor-class-identifier ") {
        lease.vendor_class = hostname_value(v);
    } else if let Some(v) = strip_prefix(line, "binding state ") {
        *state = Some(text(lower(trim(v)).as_slice()));
    } else {
        let value = match strip_prefix(line, "ends ") {
            Some(v) => Some(v),
            None => strip_prefix(line, "expire "),
        };
        if let Some(v) = value {
            lease.expires_at = parse_isc_lease_time(v);
        }
    }
}

/// Reads the body of a block.
fn parse_isc_body(ip: IpAddr, all: &Vec<&[char]>, now: Timestamp) -> (r: Option<DhcpLease>)
    ensures
        r.deep_view() == isc_body_spec(ip, text::slice_views(all@), now),
{
    let mut lease = DhcpLease {
        ip,
        mac: None,
        hostname: None,
        client_id: None,
        vendor_class: None,
        expires_at: None,
        source: None,
    };
    let mut state: Option<String> = None;
    let ghost views = text::slice_views(all@);
    let ghost start = (lease@, state.deep_view());
    let mut i: usize = 0;
    proof {
        assert(lease@ == bare_lease(ip));
    }
    while i < all.len()
        invariant
            i <= all@.len(),
            views == text::slice_views(all@),
            (lease@, state.deep_view()) == with_isc_lines(start, views.take(i as int)),
        decreases all@.len() - i,
    {
        proof {
            assert(views.take(i + 1).drop_last() =~= views.take(i as int));
            assert(views.take(i + 1).last() == all@[i as int]@);
        }
        apply_isc_line(&mut lease, &mut state, all[i]);
        i = i + 1;
    }
    proof {
        assert(views.take(i as int) =~= views);
    }
    if lease_is_current(&state, lease.expires_at, now) {
        Some(lease)
    } else {
        None
    }
}

/// The address of a block header, where the line is one; a header whose address
/// cannot be read opens a block that is skipped.
pub open spec fn isc_header(line: Seq<char>) -> Option<Option<IpAddr>> {
    match text::strip_prefix_spec(line, "lease "@) {
        Some(rest) => {
            let k = text::char_index(rest, '{');
            if k < rest.len() {
                Some(addr::parse_ip_spec(text::trim_spec(rest.take(k))))
            } else {
                None
            }
        },
        None => None,
    }
}

/// Reads a block header.
fn block_header(line: &[char]) -> (r: Option<Option<IpAddr>>)
    ensures
        r == isc_header(line@),
{
    match strip_prefix(line, "lease ") {
        Some(rest) => {
            let k: usize = find_char(rest, '{');
            if k < rest.len() {
                let head = vstd::slice::slice_subrange(rest, 0, k);
                proof {
                    assert(head@ =~= rest@.take(k as int));
                }
                Some(parse_ip(trim(head)))
            } else {
                None
            }
        },
        None => None,
    }
}

/// A sequence of at most one value.
pub open spec fn opt_seq<T>(o: Option<T>) -> Seq<T> {
    match o {
        Some(v) => seq![v],
        None => seq![],
    }
}

/// The leases of the lines that follow, within the block of `ip` where there is one.
pub open spec fn isc_scan(
    all: Seq<Seq<char>>,
    ip: Option<IpAddr>,
    body: Seq<Seq<char>>,
    now: Timestamp,
) -> Seq<DhcpLeaseView>
    decreases all.len(),
{
    if all.len() == 0 {
        seq![]
    } else {
        let line = text::trim_spec(all[0]);
        let rest = all.drop_first();
        match isc_header(line) {
            Some(next) => isc_scan(rest, next, seq![], now),
            None => if line == "}"@ {
                opt_seq(
                    match ip {
                        Some(ip) => isc_body_spec(ip, body, now),
                        None => None,
                    },
                ) + isc_scan(rest, None, seq![], now)
            } else if ip is Some {
                isc_scan(rest, ip, body.push(line), now)
            } else {
                isc_scan(rest, ip, body, now)
            },
        }
    }
}

/// The leases of a block-oriented file.
pub open spec fn isc_leases_spec(input: Seq<char>, now: Timestamp) -> Seq<DhcpLeaseView> {
    isc_scan(text::lines_spec(input), None, seq![], now)
}

/// Reads the leases of a block-oriented file. Malformed block headers are ignored
/// rather than failing the whole file.
pub fn parse_isc_leases_at(input: &str, now: Timestamp) -> (r: Vec<DhcpLease>)
    ensures
        r.deep_view() == isc_leases_spec(input@, now),
{
    let c = chars(input);
    let all = lines(c.as_slice());
    let ghost views = text::slice_views(all@);
    let mut found: Vec<DhcpLease> = Vec::new();
    let mut ip: Option<IpAddr> = None;
    let mut body: Vec<&[char]> = Vec::new();
    let mut i: usize = 0;
    proof {
        assert(views.skip(0) =~= views);
        assert(text::slice_views(body@) =~= seq![]);
        assert(found.deep_view() + isc_scan(views, None, seq![], now) =~= isc_scan(
            views,
            None,
            seq![],
            now,
        ));
    }
    while i < all.len()
        invariant
            i <= all@.len(),
            views == text::slice_views(all@),
            isc_scan(views, None, seq![], now) == found.deep_view() + isc_scan(
                views.skip(i as int),
                ip,
                text::slice_views(body@),
                now,
            ),
        decreases all@.len() - i,
    {
        let line = trim(all[i]);
        proof {
            assert(views.skip(i as int)[0] == all@[i as int]@);
            assert(views.skip(i as int).drop_first() =~= views.skip(i + 1));
        }
        match block_header(line) {
            Some(next) => {
                ip = next;
                body = Vec::new();
                proof {
                    assert(text::slice_views(body@) =~= seq![]);
                }
            },
            None => {
                if is_text(line, "}") {
                    let ghost before = found.deep_view();
                    let ghost rest = isc_scan(views.skip(i + 1), None, seq![], now);
                    let lease = match ip {
                        Some(at) => parse_isc_body(at, &body, now),
                        None => None,
                    };
                    let ghost added = lease.deep_view();
                    match lease {
                        Some(lease) => {
                            let ghost view = lease@;
                            found.push(lease);
                            proof {
                                assert(found.deep_view() =~= before.push(view));
                            }
                        },
                        None => {},
                    }
                    proof {
                        assert(before + (opt_seq(added) + rest) =~= found.deep_view() + rest);
                    }
                    ip = None;
                    body = Vec::new();
                    proof {
                        assert(text::slice_views(body@) =~= seq![]);
                    }
                } else if ip.is_some() {
                    let ghost before = text::slice_views(body@);
                    body.push(line);
                    proof {
                        assert(text::slice_views(body@) =~= before.push(line@));
                    }
                }
            },
        }
        i = i + 1;
    }
    proof {
        assert(views.skip(i as int) =~= seq![]);
        assert(found.deep_view() + seq![] =~= found.deep_view());
    }
    found
}

/// The last second that an instant can name.
pub const LAST_SECOND: i64 = 8_210_266_876_799;

/// `chrono::DateTime::from_timestamp` names the instant so many seconds after the
/// epoch, up to the end of the year 262142; `timestamp` gives the seconds back.
#[verifier::external_body]
fn instant_seconds(seconds: i64) -> (r: Option<i64>)
    requires
        seconds >= 0,
    ensures
        r == (if seconds <= LAST_SECOND {
            Some(seconds)
        } else {
            None
        }),
{
    chrono::DateTime::from_timestamp(seconds, 0).map(|t| t.timestamp())
}

/// The end of a lease that is given in seconds; zero is no end.
pub open spec fn expiry_spec(expiry: int) -> Option<LeaseInstant> {
    if 0 < expiry <= LAST_SECOND {
        Some(LeaseInstant { seconds: expiry as i64, nanos: 0 })
    } else {
        None
    }
}

/// The end of a lease that is given in seconds.
fn expiry_instant(expiry: i64) -> (r: Option<LeaseInstant>)
    ensures
        r == expiry_spec(expiry as int),
{
    if expiry <= 0 {
        return None;
    }
    match instant_seconds(expiry) {
        Some(seconds) => Some(LeaseInstant { seconds, nanos: 0 }),
        None => None,
    }
}

/// The lease of one line "expiry mac ip hostname client-id". Comments, blocks, short
/// lines, and leases that have ended have none.
pub open spec fn dnsmasq_line_spec(raw: Seq<char>, now: Timestamp) -> Option<DhcpLeaseView> {
    let line = text::trim_spec(raw);
    let w = text::words_spec(line);
    if line.len() == 0 || text::starts_with_spec(line, "#"@) || text::contains_spec(line, "{"@) || w.len() < 4 {
        None
    } else {
        match (text::signed_value(w[0]), addr::parse_ip_spec(w[2])) {
            (Some(expiry), Some(ip)) => if !(i64::MIN <= expiry <= i64::MAX) || (expiry != 0
                && expiry * 1_000_000_000 <= now) {
                None
            } else {
                Some(
                    DhcpLeaseView {
                        ip,
                        mac: lease_mac_spec(w[1]),
                        hostname: hostname_value_spec(w[3]),
                        client_id: if w.len() > 4 {
                            optional_value_spec(w[4])
                        } else {
                            None
                        },
                        vendor_class: None,
                        expires_at: expiry_spec(expiry),
                        source: None,
                    },
                )
            },
            _ => None,
        }
    }
}

/// The leases of several lines.
pub open spec fn dnsmasq_scan(all: Seq<Seq<char>>, now: Timestamp) -> Seq<DhcpLeaseView>
    decreases all.len(),
{
    if all.len() == 0 {
        seq![]
    } else {
        dnsmasq_scan(all.drop_last(), now) + opt_seq(dnsmasq_line_spec(all.last(), now))
    }
}

/// The leases of a line-oriented file.
pub open spec fn dnsmasq_leases_spec(input: Seq<char>, now: Timestamp) -> Seq<DhcpLeaseView> {
    dnsmasq_scan(text::lines_spec(input), now)
}

/// Reads one line.
fn parse_dnsmasq_line(raw: &[char], now: Timestamp) -> (r: Option<DhcpLease>)
    ensures
        r.deep_view() == dnsmasq_line_spec(raw@, now),
{
    let line = trim(raw);
    if line.len() == 0 || starts_with(line, "#") || contains(line, "{") {
        return None;
    }
    let w = words(line);
    let ghost views = text::slice_views(w@);
    if w.len() < 4 {
        return None;
    }
    proof {
        assert(views[0] == w@[0]@);
        assert(views[1] == w@[1]@);
        assert(views[2] == w@[2]@);
        assert(views[3] == w@[3]@);
    }
    let expiry: i64 = parse_signed(w[0])?;
    if expiry != 0 && expiry as i128 * 1_000_000_000 <= now {
        return None;
    }
    let ip = parse_ip(w[2])?;
    let client_id = if w.len() > 4 {
        proof {
            assert(views[4] == w@[4]@);
        }
        optional_value(w[4])
    } else {
        None
    };
    Some(
        DhcpLease {
            ip,
            mac: normalize_mac(w[1]),
            hostname: hostname_value(w[3]),
            client_id,
            vendor_class: None,
            expires_at: expiry_instant(expiry),
            source: None,
        },
    )
}

/// Reads the leases of a line-oriented file. Lines of other formats are skipped.
pub fn parse_dnsmasq_leases_at(input: &str, now: Timestamp) -> (r: Vec<DhcpLease>)
    ensures
        r.deep_view() == dnsmasq_leases_spec(input@, now),
{
    let c = chars(input);
    let all = lines(c.as_slice());
    let ghost views = text::slice_views(all@);
    let mut found: Vec<DhcpLease> = Vec::new();
    let mut i: usize = 0;
    proof {
        assert(found.deep_view() =~= seq![]);
    }
    while i < all.len()
        invariant
            i <= all@.len(),
            views == text::slice_views(all@),
            found.deep_view() == dnsmasq_scan(views.take(i as int), now),
        decreases all@.len() - i,
    {
        proof {
            assert(views.take(i + 1).drop_last() =~= views.take(i as int));
            assert(views.take(i + 1).last() == all@[i as int]@);
        }
        let ghost before = found.deep_view();
        match parse_dnsmasq_line(all[i], now) {
            Some(lease) => {
                let ghost view = lease@;
                found.push(lease);
                proof {
                    assert(found.deep_view() =~= before + seq![view]);
                }
            },
            None => {
                proof {
                    assert(before + seq![] =~= before);
                }
            },
        }
        i = i + 1;
    }
    proof {
        assert(views.take(i as int) =~= views);
    }
    found
}

/// What a key/value record says.
#[verifier::ext_equal]
pub struct LeaseRecord {
    pub ip: Option<IpAddr>,
    pub hostname: Option<Seq<char>>,
    pub client_id: Option<Seq<char>>,
    pub vendor_class: Option<Seq<char>>,
}

/// A record after one more line.
pub open spec fn with_record_line(r: LeaseRecord, line: Seq<char>) -> LeaseRecord {
    let k = text::char_index(line, '=');
    if k >= line.len() {
        r
    } else {
        let key = text::trim_spec(line.take(k));
        let value = text::trim_char_spec(text::trim_spec(line.skip(k + 1)), '"');
        if key == "ADDRESS"@ || key == "IP_ADDRESS"@ || key == "ip_address"@ {
            LeaseRecord { ip: addr::parse_ip_spec(value), ..r }
        } else if key == "HOSTNAME"@ || key == "host_name"@ || key == "name"@ {
            LeaseRecord { hostname: hostname_value_spec(value), ..r }
        } else if key == "CLIENTID"@ || key == "CLIENT_ID"@ || key == "dhcp_client_identifier"@ {
            LeaseRecord { client_id: optional_value_spec(value), ..r }
        } else if key == "VENDOR_CLASS_IDENTIFIER"@ || key == "vendor_class_identifier"@ {
            LeaseRecord { vendor_class: optional_value_spec(value), ..r }
        } else {
            r
        }
    }
}

/// A record after several lines.
pub open spec fn record_spec(all: Seq<Seq<char>>) -> LeaseRecord
    decreases all.len(),
{
    if all.len() == 0 {
        LeaseRecord { ip: None, hostname: None, client_id: None, vendor_class: None }
    } else {
        with_record_line(record_spec(all.drop_last()), all.last())
    }
}

/// The lease of a key/value file: one where the file names an address, else none.
pub open spec fn systemd_lease_spec(input: Seq<char>) -> Seq<DhcpLeaseView> {
    let r = record_spec(text::lines_spec(input));
    match r.ip {
        Some(ip) => seq![
            DhcpLeaseView {
                hostname: r.hostname,
                client_id: r.client_id,
                vendor_class: r.vendor_class,
                ..bare_lease(ip)
            },
        ],
        None => seq![],
    }
}

/// Reads the lease of a key/value file. A few key spellings are accepted because
/// versions and downstream patches have used both upper and lower case names.
pub fn parse_systemd_lease(input: &str) -> (r: Vec<DhcpLease>)
    ensures
        r.deep_view() == systemd_lease_spec(input@),
{
    let c = chars(input);
    let all = lines(c.as_slice());
    let ghost views = text::slice_views(all@);
    let mut ip: Option<IpAddr> = None;
    let mut hostname: Option<String> = None;
    let mut client_id: Option<String> = None;
    let mut vendor_class: Option<String> = None;
    let mut i: usize = 0;
    while i < all.len()
        invariant
            i <= all@.len(),
            views == text::slice_views(all@),
            record_spec(views.take(i as int)) == (LeaseRecord {
                ip,
                hostname: hostname.deep_view(),
                client_id: client_id.deep_view(),
                vendor_class: vendor_class.deep_view(),
            }),
        decreases all@.len() - i,
    {
        let line = all[i];
        proof {
            assert(views.take(i + 1).drop_last() =~= views.take(i as int));
            assert(views.take(i + 1).last() == line@);
        }
        let k: usize = find_char(line, '=');
        if k < line.len() {
            let head = vstd::slice::slice_subrange(line, 0, k);
            let tail = vstd::slice::slice_subrange(line, k + 1, line.len());
            proof {
                assert(head@ =~= line@.take(k as int));
                assert(tail@ =~= line@.skip(k + 1));
            }
            let key = trim(head);
            let value = trim_char(trim(tail), '"');
            if is_text(key, "ADDRESS") || is_text(key, "IP_ADDRESS") || is_text(key, "ip_address") {
                ip = parse_ip(value);
            } else if is_text(key, "HOSTNAME") || is_text(key, "host_name") || is_text(
                key,
                "name",
            ) {
                hostname = hostname_value(value);
            } else if is_text(key, "CLIENTID") || is_text(key, "CLIENT_ID") || is_text(
                key,
                "dhcp_client_identifier",
            ) {
                client_id = optional_value(value);
            } else if is_text(key, "VENDOR_CLASS_IDENTIFIER") || is_text(
                key,
                "vendor_class_identifier",
            ) {
                vendor_class = optional_value(value);
            }
        }
        i = i + 1;
    }
    proof {
        assert(views.take(i as int) =~= views);
    }
    let mut found: Vec<DhcpLease> = Vec::new();
    match ip {
        Some(ip) => {
            let lease = DhcpLease {
                ip,
                mac: None,
                hostname,
                client_id,
                vendor_class,
                expires_at: None,
                source: None,
            };
            let ghost view = lease@;
            found.push(lease);
            proof {
                assert(found.deep_view() =~= seq![view]);
            }
        },
        None => {
            proof {
                assert(found.deep_view() =~= seq![]);
            }
        },
    }
    found
}

/// The leases with the file that they came from.
pub open spec fn from_source(all: Seq<DhcpLeaseView>, path: Seq<char>) -> Seq<DhcpLeaseView> {
    all.map_values(|l: DhcpLeaseView| DhcpLeaseView { source: Some(path), ..l })
}

/// The leases of one file: every format is tried on it.
pub open spec fn file_leases_spec(file: LeaseFileView, now: Timestamp) -> Seq<DhcpLeaseView> {
    from_source(
        isc_leases_spec(file.text, now) + dnsmasq_leases_spec(file.text, now) + systemd_lease_spec(
            file.text,
        ),
        file.path,
    )
}

/// Appends leases that came from a file.
fn append_from(found: &mut Vec<DhcpLease>, more: Vec<DhcpLease>, path: &str)
    ensures
        final(found).deep_view() == old(found).deep_view() + from_source(more.deep_view(), path@),
{
    let ghost views = more.deep_view();
    let ghost start = found.deep_view();
    let mut i: usize = 0;
    proof {
        assert(start + from_source(views.take(0), path@) =~= start);
    }
    while i < more.len()
        invariant
            i <= more@.len(),
            views == more.deep_view(),
            found.deep_view() == start + from_source(views.take(i as int), path@),
        decreases more@.len() - i,
    {
        let ghost before = found.deep_view();
        let mut lease = more[i].clone();
        lease.source = Some(owned(path));
        let ghost view = lease@;
        found.push(lease);
        proof {
            assert(view == (DhcpLeaseView { source: Some(path@), ..views[i as int] }));
            assert(found.deep_view() =~= before.push(view));
            assert(from_source(views.take(i + 1), path@) =~= from_source(
                views.take(i as int),
                path@,
            ).push(view));
        }
        i = i + 1;
    }
    proof {
        assert(views.take(i as int) =~= views);
    }
}

/// Reads the leases of one file.
pub fn parse_lease_file(file: &LeaseFile, now: Timestamp) -> (r: Vec<DhcpLease>)
    ensures
        r.deep_view() == file_leases_spec(file@, now),
{
    let input = file.text.as_str();
    let mut found: Vec<DhcpLease> = Vec::new();
    proof {
        assert(found.deep_view() =~= seq![]);
    }
    append_from(&mut found, parse_isc_leases_at(input, now), file.path.as_str());
    append_from(&mut found, parse_dnsmasq_leases_at(input, now), file.path.as_str());
    append_from(&mut found, parse_systemd_lease(input), file.path.as_str());
    proof {
        assert(found.deep_view() =~= file_leases_spec(file@, now));
    }
    found
}

/// Two leases that say the same of a host, whichever file they came from.
pub open spec fn same_lease(a: DhcpLeaseView, b: DhcpLeaseView) -> bool {
    a.ip == b.ip && a.mac == b.mac && a.hostname == b.hostname && a.client_id == b.client_id
}

/// Leases by address.
pub struct LeaseByAddress {}

impl SortOrder<DhcpLease> for LeaseByAddress {
    open spec fn before(a: DhcpLeaseView, b: DhcpLeaseView) -> bool {
        a.ip.less_spec(b.ip)
    }

    fn comes_before(a: &DhcpLease, b: &DhcpLease) -> (r: bool) {
        a.ip.less(&b.ip)
    }

    proof fn asymmetric(a: DhcpLeaseView, b: DhcpLeaseView) {
    }

    proof fn transitive(a: DhcpLeaseView, b: DhcpLeaseView, c: DhcpLeaseView) {
    }
}

/// The leases without those that repeat the one kept before them.
pub open spec fn without_repeated_leases(all: Seq<DhcpLeaseView>) -> Seq<DhcpLeaseView>
    decreases all.len(),
{
    if all.len() == 0 {
        seq![]
    } else {
        let kept = without_repeated_leases(all.drop_last());
        if kept.len() > 0 && same_lease(kept.last(), all.last()) {
            kept
        } else {
            kept.push(all.last())
        }
    }
}

/// The leases of several files.
pub open spec fn files_leases_spec(files: Seq<LeaseFileView>, now: Timestamp) -> Seq<
    DhcpLeaseView,
>
    decreases files.len(),
{
    if files.len() == 0 {
        seq![]
    } else {
        files_leases_spec(files.drop_last(), now) + file_leases_spec(files.last(), now)
    }
}

/// The leases of several paths, in the order in which they were read.
pub open spec fn read_order_spec(reads: Seq<LeaseReadView>, now: Timestamp) -> Seq<DhcpLeaseView>
    decreases reads.len(),
{
    if reads.len() == 0 {
        seq![]
    } else {
        let before = read_order_spec(reads.drop_last(), now);
        match reads.last().files {
            Ok(files) => before + files_leases_spec(files, now),
            Err(_) => before,
        }
    }
}

/// What is said of a path that could not be read.
pub open spec fn lease_warning_spec(path: Seq<char>, error: Seq<char>) -> Seq<char> {
    "failed to read DHCP leases "@ + path + ": "@ + error
}

/// What is said of the paths that could not be read.
pub open spec fn lease_warnings_spec(reads: Seq<LeaseReadView>) -> Seq<Seq<char>>
    decreases reads.len(),
{
    if reads.len() == 0 {
        seq![]
    } else {
        let before = lease_warnings_spec(reads.drop_last());
        match reads.last().files {
            Ok(_) => before,
            Err(e) => before.push(lease_warning_spec(reads.last().path, e)),
        }
    }
}

/// Appends the leases of several files.
fn append_files(found: &mut Vec<DhcpLease>, files: &Vec<LeaseFile>, now: Timestamp)
    ensures
        final(found).deep_view() == old(found).deep_view() + files_leases_spec(
            files.deep_view(),
            now,
        ),
{
    let ghost views = files.deep_view();
    let ghost start = found.deep_view();
    let mut i: usize = 0;
    proof {
        assert(start + files_leases_spec(views.take(0), now) =~= start);
    }
    while i < files.len()
        invariant
            i <= files@.len(),
            views == files.deep_view(),
            found.deep_view() == start + files_leases_spec(views.take(i as int), now),
        decreases files@.len() - i,
    {
        let ghost before = found.deep_view();
        let mut more = parse_lease_file(&files[i], now);
        let ghost added = more.deep_view();
        found.append(&mut more);
        proof {
            assert(found.deep_view() =~= before + added);
            assert(views.take(i + 1).drop_last() =~= views.take(i as int));
            assert(views.take(i + 1).last() == files@[i as int]@);
            assert(start + (files_leases_spec(views.take(i as int), now) + added) =~= before
                + added);
        }
        i = i + 1;
    }
    proof {
        assert(views.take(i as int) =~= views);
    }
}

/// Removes the leases that repeat the one kept before them.
fn drop_repeated(all: Vec<DhcpLease>) -> (r: Vec<DhcpLease>)
    ensures
        r.deep_view() == without_repeated_leases(all.deep_view()),
{
    let ghost views = all.deep_view();
    let mut kept: Vec<DhcpLease> = Vec::new();
    let mut i: usize = 0;
    proof {
        assert(kept.deep_view() =~= seq![]);
    }
    while i < all.len()
        invariant
            i <= all@.len(),
            views == all.deep_view(),
            kept.deep_view() == without_repeated_leases(views.take(i as int)),
        decreases all@.len() - i,
    {
        proof {
            assert(views.take(i + 1).drop_last() =~= views.take(i as int));
            assert(views.take(i + 1).last() == all@[i as int]@);
        }
        let next = &all[i];
        let ghost before = kept.deep_view();
        let repeated = if kept.len() > 0 {
            let last = &kept[kept.len() - 1];
            last.ip == next.ip && last.mac.same(&next.mac) && last.hostname.same(&next.hostname)
                && last.client_id.same(&next.client_id)
        } else {
            false
        };
        if !repeated {
            kept.push(next.clone());
            proof {
                assert(kept.deep_view() =~= before.push(next@));
            }
        }
        i = i + 1;
    }
    proof {
        assert(views.take(i as int) =~= views);
    }
    kept
}

/// The leases of several paths: by address, without repetitions.
pub open spec fn read_leases_spec(reads: Seq<LeaseReadView>, now: Timestamp) -> Seq<DhcpLeaseView> {
    without_repeated_leases(sort::sorted_spec::<DhcpLease, LeaseByAddress>(read_order_spec(reads, now)))
}

/// Reads the leases of several paths, and says which paths could not be read.
///
/// Different local services can expose the same lease. Repetitions are recognized by
/// the identity fields, not by the path, so repeated reads do not inflate evidence.
pub fn read_leases(reads: &Vec<LeaseRead>, now: Timestamp) -> (r: (Vec<DhcpLease>, Vec<String>))
    ensures
        r.0.deep_view() == read_leases_spec(reads.deep_view(), now),
        r.1.deep_view() == lease_warnings_spec(reads.deep_view()),
{
    let ghost views = reads.deep_view();
    let mut found: Vec<DhcpLease> = Vec::new();
    let mut warnings: Vec<String> = Vec::new();
    let mut i: usize = 0;
    proof {
        assert(found.deep_view() =~= seq![]);
        assert(warnings.deep_view() =~= seq![]);
    }
    while i < reads.len()
        invariant
            i <= reads@.len(),
            views == reads.deep_view(),
            found.deep_view() == read_order_spec(views.take(i as int), now),
            warnings.deep_view() == lease_warnings_spec(views.take(i as int)),
        decreases reads@.len() - i,
    {
        proof {
            assert(views.take(i + 1).drop_last() =~= views.take(i as int));
            assert(views.take(i + 1).last() == reads@[i as int]@);
        }
        match &reads[i].files {
            Ok(files) => append_files(&mut found, files, now),
            Err(e) => {
                let ghost before = warnings.deep_view();
                let warning = concat4(
                    "failed to read DHCP leases ",
                    reads[i].path.as_str(),
                    ": ",
                    e.as_str(),
                );
                let ghost view = warning@;
                warnings.push(warning);
                proof {
                    assert(warnings.deep_view() =~= before.push(view));
                }
            },
        }
        i = i + 1;
    }
    proof {
        assert(views.take(i as int) =~= views);
    }
    (drop_repeated(sorted::<DhcpLease, LeaseByAddress>(found)), warnings)
}

/// Dropping repetitions keeps the order, leaves no two neighbours that say the same,
/// and keeps for each lease one that says the same.
proof fn lemma_without_repeated(all: Seq<DhcpLeaseView>)
    requires
        sort::in_order::<DhcpLease, LeaseByAddress>(all),
    ensures
        ({
            let kept = without_repeated_leases(all);
            &&& sort::in_order::<DhcpLease, LeaseByAddress>(kept)
            &&& forall|i: int|
                0 <= i < kept.len() - 1 ==> !same_lease(#[trigger] kept[i], kept[i + 1])
            &&& forall|l: DhcpLeaseView|
                all.contains(l) ==> exists|k: int|
                    0 <= k < kept.len() && same_lease(#[trigger] kept[k], l)
            &&& forall|i: int| 0 <= i < kept.len() ==> all.contains(#[trigger] kept[i])
        }),
    decreases all.len(),
{
    if all.len() > 0 {
        let front = all.drop_last();
        assert(sort::in_order::<DhcpLease, LeaseByAddress>(front)) by {
            assert forall|i: int, j: int| 0 <= i < j < front.len() implies !LeaseByAddress::before(
                #[trigger] front[j],
                #[trigger] front[i],
            ) by {
                assert(front[i] == all[i] && front[j] == all[j]);
            }
        }
        lemma_without_repeated(front);
        let before = without_repeated_leases(front);
        let kept = without_repeated_leases(all);
        assert forall|i: int| 0 <= i < kept.len() implies all.contains(#[trigger] kept[i]) by {
            if i < before.len() {
                assert(front.contains(before[i]));
                let m = choose|m: int| 0 <= m < front.len() && front[m] == before[i];
                assert(all[m] == kept[i]);
            } else {
                assert(all[all.len() - 1] == kept[i]);
            }
        }
        assert forall|i: int, j: int| 0 <= i < j < kept.len() implies !LeaseByAddress::before(
            #[trigger] kept[j],
            #[trigger] kept[i],
        ) by {
            if j < before.len() {
                assert(kept[i] == before[i] && kept[j] == before[j]);
            } else {
                assert(front.contains(before[i]));
                let m = choose|m: int| 0 <= m < front.len() && front[m] == before[i];
                assert(all[m] == kept[i]);
                assert(kept[j] == all[all.len() - 1]);
            }
        }
        assert forall|i: int| 0 <= i < kept.len() - 1 implies !same_lease(
            #[trigger] kept[i],
            kept[i + 1],
        ) by {
            if i + 1 < before.len() {
                assert(kept[i] == before[i] && kept[i + 1] == before[i + 1]);
            } else if kept.len() > before.len() {
                assert(kept[i] == before.last());
            }
        }
        assert forall|l: DhcpLeaseView| all.contains(l) implies exists|k: int|
            0 <= k < kept.len() && same_lease(#[trigger] kept[k], l) by {
            let m = choose|m: int| 0 <= m < all.len() && all[m] == l;
            if m < front.len() {
                assert(front[m] == l);
                assert(front.contains(l));
                let k = choose|k: int| 0 <= k < before.len() && same_lease(#[trigger] before[k], l);
                assert(kept[k] == before[k]);
            } else {
                assert(same_lease(kept[kept.len() - 1], l));
            }
        }
    }
}

/// What is read from several paths is in the order of the addresses, no lease repeats
/// the one before it, nothing is invented, and what any path says of a host is there.
pub proof fn law_leases_are_read_once(reads: Seq<LeaseReadView>, now: Timestamp)
    ensures
        ({
            let found = read_order_spec(reads, now);
            let kept = read_leases_spec(reads, now);
            &&& sort::in_order::<DhcpLease, LeaseByAddress>(kept)
            &&& forall|i: int|
                0 <= i < kept.len() - 1 ==> !same_lease(#[trigger] kept[i], kept[i + 1])
            &&& forall|l: DhcpLeaseView|
                found.contains(l) ==> exists|k: int|
                    0 <= k < kept.len() && same_lease(#[trigger] kept[k], l)
            &&& forall|i: int| 0 <= i < kept.len() ==> found.contains(#[trigger] kept[i])
        }),
{
    broadcast use vstd::seq_lib::group_to_multiset_ensures;

    let found = read_order_spec(reads, now);
    let all = sort::sorted_spec::<DhcpLease, LeaseByAddress>(found);
    sort::law_sorted::<DhcpLease, LeaseByAddress>(found);
    lemma_without_repeated(all);
    let kept = read_leases_spec(reads, now);
    assert forall|l: DhcpLeaseView| found.contains(l) == all.contains(l) by {
        assert(found.to_multiset().count(l) == all.to_multiset().count(l));
    }
}

/// A lease is current where it has no end, or its end is yet to come.
pub open spec fn is_current(lease: DhcpLeaseView, now: Timestamp) -> bool {
    lease.expires_at matches Some(t) ==> t.after(now)
}

/// None of the leases has ended.
pub open spec fn all_current(all: Seq<DhcpLeaseView>, now: Timestamp) -> bool {
    forall|i: int| 0 <= i < all.len() ==> is_current(#[trigger] all[i], now)
}

proof fn lemma_join_is_current(a: Seq<DhcpLeaseView>, b: Seq<DhcpLeaseView>, now: Timestamp)
    requires
        all_current(a, now),
        all_current(b, now),
    ensures
        all_current(a + b, now),
{
    assert forall|i: int| 0 <= i < (a + b).len() implies is_current(#[trigger] (a + b)[i], now) by {
        if i < a.len() {
            assert((a + b)[i] == a[i]);
        } else {
            assert((a + b)[i] == b[i - a.len()]);
        }
    }
}

proof fn lemma_blocks_are_current(
    all: Seq<Seq<char>>,
    ip: Option<IpAddr>,
    body: Seq<Seq<char>>,
    now: Timestamp,
)
    ensures
        all_current(isc_scan(all, ip, body, now), now),
    decreases all.len(),
{
    if all.len() > 0 {
        let line = text::trim_spec(all[0]);
        let rest = all.drop_first();
        match isc_header(line) {
            Some(next) => lemma_blocks_are_current(rest, next, seq![], now),
            None => if line == "}"@ {
                let here = opt_seq(
                    match ip {
                        Some(ip) => isc_body_spec(ip, body, now),
                        None => None,
                    },
                );
                lemma_blocks_are_current(rest, None, seq![], now);
                lemma_join_is_current(here, isc_scan(rest, None, seq![], now), now);
            } else if ip is Some {
                lemma_blocks_are_current(rest, ip, body.push(line), now);
            } else {
                lemma_blocks_are_current(rest, ip, body, now);
            },
        }
    }
}

proof fn lemma_lines_are_current(all: Seq<Seq<char>>, now: Timestamp)
    ensures
        all_current(dnsmasq_scan(all, now), now),
    decreases all.len(),
{
    if all.len() > 0 {
        lemma_lines_are_current(all.drop_last(), now);
        lemma_join_is_current(
            dnsmasq_scan(all.drop_last(), now),
            opt_seq(dnsmasq_line_spec(all.last(), now)),
            now,
        );
    }
}

proof fn lemma_files_are_current(files: Seq<LeaseFileView>, now: Timestamp)
    ensures
        all_current(files_leases_spec(files, now), now),
    decreases files.len(),
{
    if files.len() > 0 {
        let file = files.last();
        let all = text::lines_spec(file.text);
        let blocks = isc_leases_spec(file.text, now);
        let lines = dnsmasq_leases_spec(file.text, now);
        lemma_files_are_current(files.drop_last(), now);
        lemma_blocks_are_current(all, None, seq![], now);
        lemma_lines_are_current(all, now);
        lemma_join_is_current(blocks, lines, now);
        lemma_join_is_current(blocks + lines, systemd_lease_spec(file.text), now);
        let found = blocks + lines + systemd_lease_spec(file.text);
        assert forall|i: int| 0 <= i < found.len() implies is_current(
            #[trigger] file_leases_spec(file, now)[i],
            now,
        ) by {
            assert(is_current(found[i], now));
        }
        lemma_join_is_current(
            files_leases_spec(files.drop_last(), now),
            file_leases_spec(file, now),
            now,
        );
    }
}

proof fn lemma_reads_are_current(reads: Seq<LeaseReadView>, now: Timestamp)
    ensures
        all_current(read_order_spec(reads, now), now),
    decreases reads.len(),
{
    if reads.len() > 0 {
        let before = read_order_spec(reads.drop_last(), now);
        lemma_reads_are_current(reads.drop_last(), now);
        match reads.last().files {
            Ok(files) => {
                lemma_files_are_current(files, now);
                lemma_join_is_current(before, files_leases_spec(files, now), now);
            },
            Err(_) => {},
        }
    }
}

/// Whatever the paths and the formats of their files, no lease that has ended is read.
pub proof fn law_ended_leases_are_skipped(reads: Seq<LeaseReadView>, now: Timestamp)
    ensures
        all_current(read_leases_spec(reads, now), now),
{
    lemma_reads_are_current(reads, now);
    law_leases_are_read_once(reads, now);
}

/// The order of paths: component by component.
pub open spec fn path_less_spec(a: Seq<char>, b: Seq<char>) -> bool {
    text::less_spec(text::replace_char_spec(a, '/', '\0'), text::replace_char_spec(b, '/', '\0'))
}

/// Paths, component by component. A file name holds neither a slash nor a zero, so
/// putting the zero in the place of the slash makes a component end before any other
/// character.
pub struct PathOrder {}

impl SortOrder<String> for PathOrder {
    open spec fn before(a: Seq<char>, b: Seq<char>) -> bool {
        path_less_spec(a, b)
    }

    fn comes_before(a: &String, b: &String) -> (r: bool) {
        let left = replace_char(chars(a.as_str()).as_slice(), '/', '\0');
        let right = replace_char(chars(b.as_str()).as_slice(), '/', '\0');
        less(chars(left.as_str()).as_slice(), chars(right.as_str()).as_slice())
    }

    proof fn asymmetric(a: Seq<char>, b: Seq<char>) {
        let x = text::replace_char_spec(a, '/', '\0');
        let y = text::replace_char_spec(b, '/', '\0');
        text::lemma_less_total(x, y);
    }

    proof fn transitive(a: Seq<char>, b: Seq<char>, c: Seq<char>) {
        let x = text::replace_char_spec(a, '/', '\0');
        let y = text::replace_char_spec(b, '/', '\0');
        let z = text::replace_char_spec(c, '/', '\0');
        text::lemma_less_total(x, y);
        text::lemma_less_total(y, z);
        text::lemma_less_total(x, z);
        if x != y && y != z {
            text::lemma_less_transitive(x, y, z);
        }
    }
}

/// The texts without those that repeat the one before them.
pub open spec fn without_repeated_texts(all: Seq<Seq<char>>) -> Seq<Seq<char>>
    decreases all.len(),
{
    if all.len() == 0 {
        seq![]
    } else {
        let kept = without_repeated_texts(all.drop_last());
        if kept.len() > 0 && kept.last() == all.last() {
            kept
        } else {
            kept.push(all.last())
        }
    }
}

/// The places where lease files usually are: macOS, ISC dhcpd and dhclient, dnsmasq.
pub open spec fn usual_paths() -> Seq<Seq<char>> {
    seq![
        "/var/db/dhcpd_leases"@,
        "/var/lib/dhcp/dhcpd.leases"@,
        "/var/lib/dhcp/dhclient.leases"@,
        "/var/lib/dhcp3/dhclient.leases"@,
        "/var/lib/misc/dnsmasq.leases"@,
        "/var/db/dhcpclient/leases"@,
    ]
}

/// The paths to look at: the usual ones and those found in the directories of
/// systemd-networkd and NetworkManager, in order, each once.
pub fn default_lease_paths(found: &Vec<String>) -> (r: Vec<String>)
    ensures
        r.deep_view() == without_repeated_texts(
            sort::sorted_spec::<String, PathOrder>(usual_paths() + found.deep_view()),
        ),
{
    let mut all: Vec<String> = Vec::new();
    all.push(owned("/var/db/dhcpd_leases"));
    all.push(owned("/var/lib/dhcp/dhcpd.leases"));
    all.push(owned("/var/lib/dhcp/dhclient.leases"));
    all.push(owned("/var/lib/dhcp3/dhclient.leases"));
    all.push(owned("/var/lib/misc/dnsmasq.leases"));
    all.push(owned("/var/db/dhcpclient/leases"));
    proof {
        assert(all.deep_view() =~= usual_paths());
    }
    let mut more = found.clone();
    proof {
        assert(more.deep_view() =~= found.deep_view());
    }
    all.append(&mut more);
    proof {
        assert(all.deep_view() =~= usual_paths() + found.deep_view());
    }
    let all = sorted::<String, PathOrder>(all);
    let ghost views = all.deep_view();
    let mut kept: Vec<String> = Vec::new();
    let mut i: usize = 0;
    proof {
        assert(kept.deep_view() =~= seq![]);
    }
    while i < all.len()
        invariant
            i <= all@.len(),
            views == all.deep_view(),
            kept.deep_view() == without_repeated_texts(views.take(i as int)),
        decreases all@.len() - i,
    {
        proof {
            assert(views.take(i + 1).drop_last() =~= views.take(i as int));
            assert(views.take(i + 1).last() == all@[i as int]@);
        }
        let ghost before = kept.deep_view();
        if kept.len() == 0 || !kept[kept.len() - 1].same(&all[i]) {
            kept.push(all[i].clone());
            proof {
                assert(kept.deep_view() =~= before.push(all@[i as int]@));
            }
        }
        i = i + 1;
    }
    proof {
        assert(views.take(i as int) =~= views);
    }
    kept
}

} // verus!
