//! Hardware vendors by the leading bytes of a MAC address.

use crate::text::{chars, hex_digits, same_ignoring_case, text, trim, upper};
use crate::text;
use crate::text_map::{TextEntry, TextEntryView, TextMap, TextMapView};
use crate::text_map;
use vstd::prelude::*;

verus! {

/// The first six hexadecimal digits of a MAC address, in upper case; nothing when
/// it has fewer.
pub open spec fn oui_prefix_spec(mac: Seq<char>) -> Option<Seq<char>> {
    let digits = text::hex_digits_spec(mac);
    if digits.len() < 6 {
        None
    } else {
        Some(text::upper_spec(digits.take(6)))
    }
}

/// Reduces a MAC address to the prefix that names its vendor.
pub fn normalize_oui_prefix(mac: &str) -> (r: Option<String>)
    ensures
        r.deep_view() == oui_prefix_spec(mac@),
{
    let digits = hex_digits(chars(mac).as_slice());
    if digits.len() < 6 {
        return None;
    }
    let head = vstd::slice::slice_subrange(digits.as_slice(), 0, 6);
    proof {
        assert(head@ =~= digits@.take(6));
    }
    Some(text(upper(head).as_slice()))
}

/// The vendor of a MAC address.
pub open spec fn vendor_spec(db: TextMapView, mac: Seq<char>) -> Option<Seq<char>> {
    match oui_prefix_spec(mac) {
        Some(prefix) => db.get(prefix),
        None => None,
    }
}

/// Looks up the vendor of a MAC address.
pub fn lookup_vendor(mac: &str, db: &TextMap) -> (r: Option<String>)
    ensures
        r.deep_view() == vendor_spec(db@, mac@),
{
    match normalize_oui_prefix(mac) {
        Some(prefix) => db.get(prefix.as_str()),
        None => None,
    }
}

/// The header row and the other rows of a table, or why there are none.
pub type CsvTable = Result<(Vec<String>, Vec<Vec<String>>), String>;

/// The table that a text in CSV format spells, or why it spells none.
pub uninterp spec fn csv_table(text: Seq<char>) -> Result<
    (Seq<Seq<char>>, Seq<Seq<Seq<char>>>),
    Seq<char>,
>;

/// The content of a table.
pub open spec fn table_view(t: CsvTable) -> Result<
    (Seq<Seq<char>>, Seq<Seq<Seq<char>>>),
    Seq<char>,
> {
    match t {
        Ok((headers, rows)) => Ok((headers.deep_view(), rows.deep_view())),
        Err(e) => Err(e@),
    }
}

/// `csv::Reader`, with its defaults, reads a text as a header row and records; the
/// first record that it refuses is the error.
#[verifier::external_body]
fn read_csv(text: &str) -> (r: CsvTable)
    ensures
        table_view(r) == csv_table(text@),
{
    let mut reader = csv::Reader::from_reader(text.as_bytes());
    let headers = reader.headers().map_err(|e| e.to_string())?.iter().map(str::to_owned).collect();
    let mut rows = Vec::new();
    for record in reader.records() {
        rows.push(record.map_err(|e| e.to_string())?.iter().map(str::to_owned).collect());
    }
    Ok((headers, rows))
}

/// The column headed by a name, up to white space and the case of ASCII letters,
/// or the number of columns.
pub open spec fn header_index(headers: Seq<Seq<char>>, name: Seq<char>) -> int
    decreases headers.len(),
{
    if headers.len() == 0 || text::lower_spec(text::trim_spec(headers[0])) == text::lower_spec(name) {
        0
    } else {
        1 + header_index(headers.drop_first(), name)
    }
}

/// The column headed by a name, or the fallback.
pub open spec fn column_spec(headers: Seq<Seq<char>>, name: Seq<char>, fallback: int) -> int {
    let k = header_index(headers, name);
    if k < headers.len() {
        k
    } else {
        fallback
    }
}

/// Finds the column headed by a name.
fn find_header(headers: &Vec<String>, name: &str) -> (r: Option<usize>)
    ensures
        match r {
            Some(k) => k == header_index(headers.deep_view(), name@) && k < headers@.len(),
            None => header_index(headers.deep_view(), name@) >= headers@.len(),
        },
{
    let wanted = chars(name);
    let ghost views = headers.deep_view();
    let mut i: usize = 0;
    proof {
        assert(views.skip(0) =~= views);
    }
    while i < headers.len()
        invariant
            i <= headers@.len(),
            views == headers.deep_view(),
            wanted@ == name@,
            header_index(views, name@) == i + header_index(views.skip(i as int), name@),
        decreases headers@.len() - i,
    {
        let header = chars(headers[i].as_str());
        proof {
            assert(views.skip(i as int)[0] == headers@[i as int]@);
            assert(views.skip(i as int).drop_first() =~= views.skip(i + 1));
        }
        if same_ignoring_case(trim(header.as_slice()), wanted.as_slice()) {
            return Some(i);
        }
        i = i + 1;
    }
    None
}

/// The assignments after a row of the table. A row without a prefix of six digits
/// or without an organization is skipped.
pub open spec fn with_row(
    db: TextMapView,
    row: Seq<Seq<char>>,
    assignment: int,
    organization: int,
) -> TextMapView {
    if assignment < row.len() && organization < row.len() && text::trim_spec(row[organization]).len()
        > 0 {
        match oui_prefix_spec(row[assignment]) {
            Some(prefix) => db.insert(prefix, text::trim_spec(row[organization])),
            None => db,
        }
    } else {
        db
    }
}

/// The assignments after the rows of a table.
pub open spec fn with_rows(
    db: TextMapView,
    rows: Seq<Seq<Seq<char>>>,
    assignment: int,
    organization: int,
) -> TextMapView
    decreases rows.len(),
{
    if rows.len() == 0 {
        db
    } else {
        with_row(
            with_rows(db, rows.drop_last(), assignment, organization),
            rows.last(),
            assignment,
            organization,
        )
    }
}

/// The assignments that a table lists. Its columns are found by their headers,
/// with the second and third as fallbacks.
pub open spec fn oui_table_spec(headers: Seq<Seq<char>>, rows: Seq<Seq<Seq<char>>>) -> TextMapView {
    let assignment = column_spec(headers, "Assignment"@, 1);
    let organization = column_spec(
        headers,
        "Organization Name"@,
        column_spec(headers, "Organization"@, 2),
    );
    with_rows(TextMapView { entries: seq![] }, rows, assignment, organization)
}

/// Collects the assignments that a table lists.
pub fn parse_oui_table(headers: &Vec<String>, rows: &Vec<Vec<String>>) -> (r: TextMap)
    ensures
        r@ == oui_table_spec(headers.deep_view(), rows.deep_view()),
        r@.distinct(),
{
    let assignment: usize = match find_header(headers, "Assignment") {
        Some(k) => k,
        None => 1,
    };
    let organization: usize = match find_header(headers, "Organization Name") {
        Some(k) => k,
        None => match find_header(headers, "Organization") {
            Some(k) => k,
            None => 2,
        },
    };
    let mut db = TextMap::default();
    let ghost start = db@;
    let ghost views = rows.deep_view();
    let mut i: usize = 0;
    while i < rows.len()
        invariant
            i <= rows@.len(),
            views == rows.deep_view(),
            db@ == with_rows(start, views.take(i as int), assignment as int, organization as int),
            db@.distinct(),
        decreases rows@.len() - i,
    {
        let row = &rows[i];
        proof {
            assert(views.take(i + 1).drop_last() =~= views.take(i as int));
            assert(views.take(i + 1).last() == row.deep_view());
        }
        if assignment < row.len() && organization < row.len() {
            let raw = chars(row[organization].as_str());
            let name = trim(raw.as_slice());
            if name.len() > 0 {
                match normalize_oui_prefix(row[assignment].as_str()) {
                    Some(prefix) => db.insert(prefix, text(name)),
                    None => {},
                }
            }
        }
        i = i + 1;
    }
    proof {
        assert(views.take(i as int) =~= views);
    }
    db
}

/// Reads the IEEE list of assigned prefixes.
pub fn parse_ieee_oui_csv(input: &str) -> (r: Result<TextMap, String>)
    ensures
        match csv_table(input@) {
            Ok((headers, rows)) => r matches Ok(db) && db@ == oui_table_spec(headers, rows)
                && db@.distinct(),
            Err(e) => r matches Err(shown) && shown@ == e,
        },
{
    match read_csv(input) {
        Ok((headers, rows)) => Ok(parse_oui_table(&headers, &rows)),
        Err(e) => Err(e),
    }
}

/// The members of an object of texts, or why there are none.
pub type JsonTexts = Result<Vec<(String, String)>, String>;

/// The members of the JSON object of texts that bytes spell, or why they spell none.
pub uninterp spec fn json_texts(b: Seq<u8>) -> Result<Seq<(Seq<char>, Seq<char>)>, Seq<char>>;

/// The content of members.
pub open spec fn pairs_view(members: Seq<(String, String)>) -> Seq<(Seq<char>, Seq<char>)> {
    members.map_values(|p: (String, String)| (p.0@, p.1@))
}

/// The content of the members of an object.
pub open spec fn members_view(r: JsonTexts) -> Result<Seq<(Seq<char>, Seq<char>)>, Seq<char>> {
    match r {
        Ok(members) => Ok(pairs_view(members@)),
        Err(e) => Err(e@),
    }
}

/// No two members have the same key.
pub open spec fn keys_differ(members: Seq<(Seq<char>, Seq<char>)>) -> bool {
    forall|i: int, j: int|
        0 <= i < j < members.len() ==> (#[trigger] members[i]).0 != (#[trigger] members[j]).0
}

/// `serde_json::from_slice` reads bytes as a JSON object whose values are texts into a
/// `BTreeMap`, which holds every key once.
#[verifier::external_body]
fn read_json_texts(b: &[u8]) -> (r: JsonTexts)
    ensures
        members_view(r) == json_texts(b@),
        r matches Ok(members) ==> keys_differ(pairs_view(members@)),
{
    let map = serde_json::from_slice::<std::collections::BTreeMap<String, String>>(b);
    Ok(map.map_err(|e| e.to_string())?.into_iter().collect())
}

/// The bytes of a JSON object that has the entries of a map as its members, or why
/// there are none.
pub uninterp spec fn json_text_bytes(entries: Seq<TextEntryView>) -> Result<Seq<u8>, Seq<char>>;

/// The content of bytes.
pub open spec fn bytes_view(r: Result<Vec<u8>, String>) -> Result<Seq<u8>, Seq<char>> {
    match r {
        Ok(b) => Ok(b@),
        Err(e) => Err(e@),
    }
}

/// Members are the entries of a map, each once, in whatever order.
pub open spec fn are_entries(
    members: Seq<(Seq<char>, Seq<char>)>,
    entries: Seq<TextEntryView>,
) -> bool {
    keys_differ(members) && forall|key: Seq<char>, value: Seq<char>| #[trigger]
        members.contains((key, value)) <==> entries.contains(TextEntryView { key, value })
}

/// Something was written, and the entries of a map are read from it.
pub open spec fn reads_back(
    written: Result<Seq<u8>, Seq<char>>,
    entries: Seq<TextEntryView>,
) -> bool {
    match written {
        Ok(b) => match json_texts(b) {
            Ok(members) => are_entries(members, entries),
            Err(_) => false,
        },
        Err(_) => false,
    }
}

/// `serde_json::to_vec_pretty` writes a `BTreeMap` of texts as a JSON object. It refuses
/// no such map, and `serde_json::from_slice` reads the same members from what it wrote.
#[verifier::external_body]
fn write_json_texts(db: &TextMap) -> (r: Result<Vec<u8>, String>)
    requires
        db@.distinct(),
    ensures
        bytes_view(r) == json_text_bytes(db@.entries),
        reads_back(bytes_view(r), db@.entries),
{
    let pairs = db.entries.iter().map(|e| (e.key.as_str(), e.value.as_str()));
    let map = pairs.collect::<std::collections::BTreeMap<&str, &str>>();
    serde_json::to_vec_pretty(&map).map_err(|e| e.to_string())
}

/// The vendor database that members of an object list: an entry for each.
pub open spec fn oui_db_spec(members: Seq<(Seq<char>, Seq<char>)>) -> Seq<TextEntryView> {
    members.map_values(
        |p: (Seq<char>, Seq<char>)| TextEntryView { key: p.0, value: p.1 },
    )
}

/// Collects the vendor database that members of an object list.
pub fn oui_db_of(members: &Vec<(String, String)>) -> (db: TextMap)
    ensures
        db@.entries == oui_db_spec(pairs_view(members@)),
        keys_differ(pairs_view(members@)) ==> db@.distinct(),
{
    let ghost views = pairs_view(members@);
    let mut db = TextMap::default();
    let mut i: usize = 0;
    proof {
        assert(oui_db_spec(views.take(0)) =~= seq![]);
    }
    while i < members.len()
        invariant
            i <= members@.len(),
            views == pairs_view(members@),
            db@.entries == oui_db_spec(views.take(i as int)),
        decreases members@.len() - i,
    {
        let ghost before = db@.entries;
        let entry = TextEntry { key: members[i].0.clone(), value: members[i].1.clone() };
        let ghost view = entry@;
        db.entries.push(entry);
        proof {
            assert(db@.entries =~= before.push(view));
            assert(oui_db_spec(views.take(i + 1)) =~= oui_db_spec(views.take(i as int)).push(view));
        }
        i = i + 1;
    }
    proof {
        assert(views.take(i as int) =~= views);
    }
    db
}

/// Reads a vendor database file.
pub fn parse_oui_db(b: &[u8]) -> (r: Result<TextMap, String>)
    ensures
        match json_texts(b@) {
            Ok(members) => r matches Ok(db) && db@.entries == oui_db_spec(members)
                && db@.distinct(),
            Err(e) => r matches Err(shown) && shown@ == e,
        },
{
    match read_json_texts(b) {
        Ok(members) => Ok(oui_db_of(&members)),
        Err(e) => Err(e),
    }
}

/// Writes a vendor database file. Whoever reads it finds the vendor of every prefix as
/// it was written.
pub fn oui_db_json(db: &TextMap) -> (r: Result<Vec<u8>, String>)
    requires
        db@.distinct(),
    ensures
        bytes_view(r) == json_text_bytes(db@.entries),
        r matches Ok(b) && json_texts(b@) matches Ok(members) && same_vendors(
            TextMapView { entries: oui_db_spec(members) },
            db@,
        ),
{
    let r = write_json_texts(db);
    proof {
        lemma_entries_have_vendors(json_texts(r->Ok_0@)->Ok_0, db@);
    }
    r
}

/// Two databases give every MAC address and every prefix the same vendor.
pub open spec fn same_vendors(a: TextMapView, b: TextMapView) -> bool {
    &&& forall|prefix: Seq<char>| #[trigger] a.get(prefix) == b.get(prefix)
    &&& forall|mac: Seq<char>| #[trigger] vendor_spec(a, mac) == vendor_spec(b, mac)
}

/// Members that are the entries of a database give its vendors.
proof fn lemma_entries_have_vendors(members: Seq<(Seq<char>, Seq<char>)>, db: TextMapView)
    requires
        db.distinct(),
        are_entries(members, db.entries),
    ensures
        same_vendors(TextMapView { entries: oui_db_spec(members) }, db),
{
    let read = TextMapView { entries: oui_db_spec(members) };
    assert forall|i: int, j: int| 0 <= i < j < read.entries.len() implies (
    #[trigger] read.entries[i]).key != (#[trigger] read.entries[j]).key by {
        assert(members[i].0 != members[j].0);
    }
    assert forall|e: TextEntryView| read.entries.contains(e) <==> db.entries.contains(e) by {
        if read.entries.contains(e) {
            let i = choose|i: int| 0 <= i < read.entries.len() && read.entries[i] == e;
            assert(members[i] == (e.key, e.value));
            assert(members.contains((e.key, e.value)));
            assert(db.entries.contains(TextEntryView { key: e.key, value: e.value }));
        }
        if db.entries.contains(e) {
            assert(e == (TextEntryView { key: e.key, value: e.value }));
            assert(members.contains((e.key, e.value)));
            let i = choose|i: int| 0 <= i < members.len() && members[i] == (e.key, e.value);
            assert(read.entries[i] == e);
        }
    }
    assert forall|prefix: Seq<char>| #[trigger] read.get(prefix) == db.get(prefix) by {
        text_map::law_order_of_entries_is_free(read, db, prefix);
    }
}

} // verus!
