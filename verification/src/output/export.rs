//! Non-interactive output.
//!
//! Table output is optimized for humans, while CSV preserves the fields useful to
//! scripts. Privacy options are applied here so callers can keep the in-memory model
//! unredacted.

use crate::dhcp::LAST_SECOND;
use crate::model::{Confidence, Device, DeviceView, Guess, GuessView, Timestamp};
use crate::output::privacy::{csv_mac, display_mac, masked_devices, OutputOptions};
use crate::output::privacy;
use crate::output::sources::source_summary;
use crate::output::sources;
use crate::text::{concat, concat3, decimal, or_empty, owned};
use crate::text;
use vstd::prelude::*;

verus! {

/// The first second that an instant can name.
pub const FIRST_SECOND: i64 = -8_334_601_228_800;

/// The instant lies within the years that dates are written for.
pub open spec fn valid_instant(t: Timestamp) -> bool {
    FIRST_SECOND * 1_000_000_000 <= t < (LAST_SECOND + 1) * 1_000_000_000
}

/// The times of every device can be written.
pub open spec fn valid_times(devices: Seq<DeviceView>) -> bool {
    forall|i: int|
        0 <= i < devices.len() ==> valid_instant((#[trigger] devices[i]).first_seen)
            && valid_instant(devices[i].last_seen)
}

/// The text of the instant so many seconds and nanoseconds after the epoch.
pub uninterp spec fn rfc3339_spec(seconds: i64, nanos: u32) -> Seq<char>;

/// `chrono::DateTime::from_timestamp` names the instant so many seconds and nanoseconds
/// after the epoch, for every second within its bounds, and `to_rfc3339` writes it in
/// UTC.
#[verifier::external_body]
fn rfc3339(seconds: i64, nanos: u32) -> (r: String)
    requires
        FIRST_SECOND <= seconds <= LAST_SECOND,
        nanos < 1_000_000_000,
    ensures
        r@ == rfc3339_spec(seconds, nanos),
{
    chrono::DateTime::from_timestamp(seconds, nanos).unwrap_or_default().to_rfc3339()
}

/// The text of an instant.
pub open spec fn instant_text_spec(t: Timestamp) -> Seq<char> {
    rfc3339_spec((t as int / 1_000_000_000) as i64, (t as int % 1_000_000_000) as u32)
}

/// The whole seconds of an instant, rounded down, and the nanoseconds on top.
pub fn split_instant(t: Timestamp) -> (r: (i64, u32))
    requires
        valid_instant(t),
    ensures
        r.0 == t as int / 1_000_000_000,
        r.1 == t as int % 1_000_000_000,
        FIRST_SECOND <= r.0 <= LAST_SECOND,
        r.1 < 1_000_000_000,
{
    if t >= 0 {
        let u: u128 = t as u128;
        ((u / 1_000_000_000) as i64, (u % 1_000_000_000) as u32)
    } else {
        let u: u128 = (-(t + 1)) as u128;
        let q: i64 = (u / 1_000_000_000) as i64;
        let m: u32 = (u % 1_000_000_000) as u32;
        proof {
            assert(t as int == (-q - 1) * 1_000_000_000 + (999_999_999 - m));
            assert(t as int / 1_000_000_000 == -q - 1);
            assert(t as int % 1_000_000_000 == 999_999_999 - m);
        }
        (-q - 1, 999_999_999 - m)
    }
}

/// Writes an instant.
pub fn instant_text(t: Timestamp) -> (r: String)
    requires
        valid_instant(t),
    ensures
        r@ == instant_text_spec(t),
{
    let (seconds, nanos) = split_instant(t);
    rfc3339(seconds, nanos)
}

/// A confidence with two decimals.
pub open spec fn confidence_text_spec(c: Confidence) -> Seq<char> {
    text::decimal_spec((c / 100) as nat) + "."@ + (text::decimal_spec((c % 100 / 10) as nat) + text::decimal_spec(
        (c % 10) as nat,
    ))
}

/// Writes a confidence.
pub fn confidence_text(c: Confidence) -> (r: String)
    ensures
        r@ == confidence_text_spec(c),
{
    concat3(
        decimal((c / 100) as u64).as_str(),
        ".",
        concat(decimal((c % 100 / 10) as u64).as_str(), decimal((c % 10) as u64).as_str()).as_str(),
    )
}

/// An optional text, or a hyphen.
pub open spec fn or_hyphen(v: Option<Seq<char>>) -> Seq<char> {
    match v {
        Some(v) => v,
        None => "-"@,
    }
}

/// The text of a guess, where there is one.
pub open spec fn guess_value(g: Option<GuessView>) -> Option<Seq<char>> {
    match g {
        Some(g) => Some(g.value),
        None => None,
    }
}

/// An optional text, or a hyphen.
pub fn text_or_hyphen(v: &Option<String>) -> (r: String)
    ensures
        r@ == or_hyphen(v.deep_view()),
{
    match v {
        Some(v) => v.clone(),
        None => owned("-"),
    }
}

/// The text of a guess, where there is one.
pub fn guess_text(g: &Option<Guess>) -> (r: Option<String>)
    ensures
        r.deep_view() == guess_value(g.deep_view()),
{
    match g {
        Some(g) => Some(g.value.clone()),
        None => None,
    }
}

/// The columns of the table.
pub open spec fn table_header() -> Seq<Seq<char>> {
    seq![
        "IP"@,
        "Iface"@,
        "MAC"@,
        "Vendor"@,
        "Make"@,
        "Model"@,
        "Name"@,
        "OS"@,
        "Confidence"@,
        "Sources"@,
        "Last Seen"@,
    ]
}

/// A device as a row of the table. The type is left out: it is mainly a rule output,
/// and terminal width is better spent on direct identity fields.
pub open spec fn table_row(d: DeviceView, options: OutputOptions) -> Seq<Seq<char>> {
    seq![
        d.ip.text_spec(),
        or_hyphen(d.interface),
        privacy::display_mac_spec(d.mac, options),
        or_hyphen(d.vendor),
        or_hyphen(guess_value(d.make)),
        or_hyphen(guess_value(d.model)),
        or_hyphen(d.hostname),
        or_hyphen(guess_value(d.os)),
        confidence_text_spec(d.identity_confidence()),
        text::join_spec(sources::sources_spec(d), ","@),
        instant_text_spec(d.last_seen),
    ]
}

/// The rows of the table below its header, one for each device.
pub open spec fn table_rows_spec(devices: Seq<DeviceView>, options: OutputOptions) -> Seq<
    Seq<Seq<char>>,
> {
    privacy::shown_devices(devices, options).map_values(|d: DeviceView| table_row(d, options))
}

/// The content of rows of texts.
pub open spec fn rows_view(rows: Seq<Vec<String>>) -> Seq<Seq<Seq<char>>> {
    rows.map_values(|row: Vec<String>| row.deep_view())
}

/// Builds a row of the table.
fn build_table_row(d: &Device, options: OutputOptions) -> (r: Vec<String>)
    requires
        valid_instant(d.last_seen),
    ensures
        r.deep_view() == table_row(d@, options),
{
    let mut row: Vec<String> = Vec::new();
    row.push(d.ip.text());
    row.push(text_or_hyphen(&d.interface));
    row.push(display_mac(&d.mac, options));
    row.push(text_or_hyphen(&d.vendor));
    row.push(text_or_hyphen(&guess_text(&d.make)));
    row.push(text_or_hyphen(&guess_text(&d.model)));
    row.push(text_or_hyphen(&d.hostname));
    row.push(text_or_hyphen(&guess_text(&d.os)));
    row.push(confidence_text(d.identity_confidence()));
    row.push(source_summary(d));
    row.push(instant_text(d.last_seen));
    proof {
        assert(row.deep_view() =~= table_row(d@, options));
    }
    row
}

/// Masking keeps the times.
proof fn lemma_shown_times(devices: Seq<DeviceView>, options: OutputOptions)
    requires
        valid_times(devices),
    ensures
        valid_times(privacy::shown_devices(devices, options)),
{
    let shown = privacy::shown_devices(devices, options);
    assert forall|i: int| 0 <= i < shown.len() implies valid_instant(
        (#[trigger] shown[i]).first_seen,
    ) && valid_instant(shown[i].last_seen) by {
        assert(valid_instant(devices[i].first_seen));
    }
}

/// Lists the rows of the table.
pub fn table_rows(devices: &Vec<Device>, options: OutputOptions) -> (r: Vec<Vec<String>>)
    requires
        valid_times(devices.deep_view()),
    ensures
        rows_view(r@) == table_rows_spec(devices.deep_view(), options),
{
    let shown = masked_devices(devices, options);
    let ghost views = shown.deep_view();
    proof {
        lemma_shown_times(devices.deep_view(), options);
    }
    let mut rows: Vec<Vec<String>> = Vec::new();
    let mut i: usize = 0;
    while i < shown.len()
        invariant
            i <= shown@.len(),
            views == shown.deep_view(),
            valid_times(views),
            rows@.len() == i,
            forall|k: int|
                0 <= k < i ==> (#[trigger] rows@[k]).deep_view() == table_row(views[k], options),
        decreases shown@.len() - i,
    {
        proof {
            assert(views[i as int] == shown@[i as int]@);
            assert(valid_instant(views[i as int].last_seen));
        }
        rows.push(build_table_row(&shown[i], options));
        i = i + 1;
    }
    proof {
        assert(rows_view(rows@) =~= table_rows_spec(devices.deep_view(), options));
    }
    rows
}

/// The drawing of a table with a header and rows.
pub uninterp spec fn drawn_table(header: Seq<Seq<char>>, rows: Seq<Seq<Seq<char>>>) -> Seq<char>;

/// `comfy_table::Table` draws a table with full UTF-8 borders; nothing is wrapped, so
/// that the terminal does not matter.
#[verifier::external_body]
fn draw_table(header: Vec<String>, rows: Vec<Vec<String>>) -> (r: String)
    ensures
        r@ == drawn_table(header.deep_view(), rows_view(rows@)),
{
    let mut table = comfy_table::Table::new();
    table.load_preset(comfy_table::presets::UTF8_FULL);
    table.set_header(header);
    table.add_rows(rows);
    table.to_string()
}

/// Draws the devices as a table.
pub fn to_table(devices: &Vec<Device>, options: OutputOptions) -> (r: String)
    requires
        valid_times(devices.deep_view()),
    ensures
        r@ == drawn_table(table_header(), table_rows_spec(devices.deep_view(), options)),
{
    let mut header: Vec<String> = Vec::new();
    header.push(owned("IP"));
    header.push(owned("Iface"));
    header.push(owned("MAC"));
    header.push(owned("Vendor"));
    header.push(owned("Make"));
    header.push(owned("Model"));
    header.push(owned("Name"));
    header.push(owned("OS"));
    header.push(owned("Confidence"));
    header.push(owned("Sources"));
    header.push(owned("Last Seen"));
    proof {
        assert(header.deep_view() =~= table_header());
    }
    draw_table(header, table_rows(devices, options))
}

/// The columns of the export.
pub open spec fn csv_header() -> Seq<Seq<char>> {
    seq![
        "ip"@,
        "interface"@,
        "mac"@,
        "vendor"@,
        "make"@,
        "model"@,
        "hostname"@,
        "os"@,
        "device_type"@,
        "confidence"@,
        "sources"@,
        "first_seen"@,
        "last_seen"@,
    ]
}

/// A device as a row of the export. The type is kept: spreadsheets and automation
/// usually benefit from the structured classification.
pub open spec fn csv_row(d: DeviceView, options: OutputOptions) -> Seq<Seq<char>> {
    seq![
        d.ip.text_spec(),
        text::or_empty_spec(d.interface),
        privacy::csv_mac_spec(d.mac, options),
        text::or_empty_spec(d.vendor),
        text::or_empty_spec(guess_value(d.make)),
        text::or_empty_spec(guess_value(d.model)),
        text::or_empty_spec(d.hostname),
        text::or_empty_spec(guess_value(d.os)),
        text::or_empty_spec(guess_value(d.device_type)),
        confidence_text_spec(d.identity_confidence()),
        text::join_spec(sources::sources_spec(d), ","@),
        instant_text_spec(d.first_seen),
        instant_text_spec(d.last_seen),
    ]
}

/// The records of the export: the header, then a row for each device.
pub open spec fn csv_records_spec(devices: Seq<DeviceView>, options: OutputOptions) -> Seq<
    Seq<Seq<char>>,
> {
    seq![csv_header()] + privacy::shown_devices(devices, options).map_values(
        |d: DeviceView| csv_row(d, options),
    )
}

/// Builds a row of the export.
fn build_csv_row(d: &Device, options: OutputOptions) -> (r: Vec<String>)
    requires
        valid_instant(d.first_seen),
        valid_instant(d.last_seen),
    ensures
        r.deep_view() == csv_row(d@, options),
{
    let mut row: Vec<String> = Vec::new();
    row.push(d.ip.text());
    row.push(or_empty(&d.interface));
    row.push(csv_mac(&d.mac, options));
    row.push(or_empty(&d.vendor));
    row.push(or_empty(&guess_text(&d.make)));
    row.push(or_empty(&guess_text(&d.model)));
    row.push(or_empty(&d.hostname));
    row.push(or_empty(&guess_text(&d.os)));
    row.push(or_empty(&guess_text(&d.device_type)));
    row.push(confidence_text(d.identity_confidence()));
    row.push(source_summary(d));
    row.push(instant_text(d.first_seen));
    row.push(instant_text(d.last_seen));
    proof {
        assert(row.deep_view() =~= csv_row(d@, options));
    }
    row
}

/// Lists the records of the export.
pub fn csv_records(devices: &Vec<Device>, options: OutputOptions) -> (r: Vec<Vec<String>>)
    requires
        valid_times(devices.deep_view()),
    ensures
        rows_view(r@) == csv_records_spec(devices.deep_view(), options),
{
    let mut header: Vec<String> = Vec::new();
    header.push(owned("ip"));
    header.push(owned("interface"));
    header.push(owned("mac"));
    header.push(owned("vendor"));
    header.push(owned("make"));
    header.push(owned("model"));
    header.push(owned("hostname"));
    header.push(owned("os"));
    header.push(owned("device_type"));
    header.push(owned("confidence"));
    header.push(owned("sources"));
    header.push(owned("first_seen"));
    header.push(owned("last_seen"));
    proof {
        assert(header.deep_view() =~= csv_header());
    }
    let shown = masked_devices(devices, options);
    let ghost views = shown.deep_view();
    proof {
        lemma_shown_times(devices.deep_view(), options);
    }
    let mut rows: Vec<Vec<String>> = Vec::new();
    rows.push(header);
    let mut i: usize = 0;
    while i < shown.len()
        invariant
            i <= shown@.len(),
            views == shown.deep_view(),
            valid_times(views),
            rows@.len() == i + 1,
            rows@[0].deep_view() == csv_header(),
            forall|k: int|
                0 <= k < i ==> (#[trigger] rows@[k + 1]).deep_view() == csv_row(views[k], options),
        decreases shown@.len() - i,
    {
        proof {
            assert(views[i as int] == shown@[i as int]@);
            assert(valid_instant(views[i as int].last_seen));
        }
        let ghost before = rows@;
        rows.push(build_csv_row(&shown[i], options));
        proof {
            assert forall|k: int| 0 <= k < i + 1 implies (#[trigger] rows@[k + 1]).deep_view()
                == csv_row(views[k], options) by {
                if k < i {
                    assert(rows@[k + 1] == before[k + 1]);
                }
            }
        }
        i = i + 1;
    }
    proof {
        let want = csv_records_spec(devices.deep_view(), options);
        assert forall|k: int| 0 <= k < want.len() implies rows_view(rows@)[k] == want[k] by {
            if k > 0 {
                assert(rows@[(k - 1) + 1].deep_view() == csv_row(views[k - 1], options));
            }
        }
        assert(rows_view(rows@) =~= want);
    }
    rows
}

/// The text of records in CSV form, or why it could not be written.
pub uninterp spec fn csv_text_spec(records: Seq<Seq<Seq<char>>>) -> Result<Seq<char>, Seq<char>>;

/// The content of a text, or of why there is none.
pub open spec fn text_view(r: Result<String, String>) -> Result<Seq<char>, Seq<char>> {
    match r {
        Ok(t) => Ok(t@),
        Err(e) => Err(e@),
    }
}

/// All records have the same number of fields.
pub open spec fn even_records(records: Seq<Seq<Seq<char>>>) -> bool {
    forall|i: int, j: int|
        0 <= i < records.len() && 0 <= j < records.len() ==> (#[trigger] records[i]).len() == (
        #[trigger] records[j]).len()
}

/// `csv::Writer` writes records, one after the other, into memory, and refuses only
/// records with different numbers of fields. `String::from_utf8` takes over the bytes,
/// which are text because the fields are.
#[verifier::external_body]
fn csv_text(records: Vec<Vec<String>>) -> (r: Result<String, String>)
    ensures
        text_view(r) == csv_text_spec(rows_view(records@)),
        even_records(rows_view(records@)) ==> r is Ok,
{
    let mut writer = csv::Writer::from_writer(Vec::new());
    for record in records {
        writer.write_record(record).map_err(|e| e.to_string())?;
    }
    let bytes = writer.into_inner().map_err(|e| e.to_string())?;
    String::from_utf8(bytes).map_err(|e| e.to_string())
}

/// Exports the devices as CSV.
pub fn to_csv(devices: &Vec<Device>, options: OutputOptions) -> (r: Result<String, String>)
    requires
        valid_times(devices.deep_view()),
    ensures
        text_view(r) == csv_text_spec(csv_records_spec(devices.deep_view(), options)),
        r is Ok,
{
    let records = csv_records(devices, options);
    proof {
        assert(even_records(rows_view(records@)));
    }
    csv_text(records)
}

/// Masked exports tell nothing that masking hides: scans whose devices look the same
/// once they are masked give the same table and the same records.
pub proof fn law_masked_exports_reveal_nothing(
    a: Seq<DeviceView>,
    b: Seq<DeviceView>,
    options: OutputOptions,
)
    requires
        options.masks(),
        privacy::shown_devices(a, options) == privacy::shown_devices(b, options),
    ensures
        table_rows_spec(a, options) == table_rows_spec(b, options),
        csv_records_spec(a, options) == csv_records_spec(b, options),
{
}

} // verus!
