//! Device table columns: titles, texts and widths.

use crate::model::{Device, DeviceView};
use crate::output::export::{confidence_text, guess_text, text_or_hyphen};
use crate::output::export;
use crate::output::live::layout::{
    fit_cell, panel_content_width, spread_width, sum_widths, table_spacing_width,
};
use crate::output::live::layout;
use crate::output::privacy::{display_mac, OutputOptions};
use crate::output::privacy;
use crate::output::sources::compact_source_summary;
use crate::output::sources;
use crate::text::{chars, owned};
use vstd::prelude::*;

verus! {

/// A column of the device table. The device type has none: it is mainly a rule output.
#[derive(Clone, Copy, Debug, PartialEq, Eq, Structural)]
pub enum DeviceColumn {
    Ip,
    Interface,
    Mac,
    Vendor,
    Model,
    Name,
    Os,
    Confidence,
    Sources,
    Seen,
}

/// A column with its width.
#[derive(Clone, Copy, Debug, PartialEq, Eq, Structural)]
pub struct DeviceTableColumn {
    pub kind: DeviceColumn,
    pub width: u16,
}

impl DeviceColumn {
    /// The head of the column.
    pub open spec fn title_spec(self) -> Seq<char> {
        match self {
            DeviceColumn::Ip => "IP"@,
            DeviceColumn::Interface => "Iface"@,
            DeviceColumn::Mac => "MAC"@,
            DeviceColumn::Vendor => "Vendor"@,
            DeviceColumn::Model => "Model"@,
            DeviceColumn::Name => "Name"@,
            DeviceColumn::Os => "OS"@,
            DeviceColumn::Confidence => "Conf"@,
            DeviceColumn::Sources => "Sources"@,
            DeviceColumn::Seen => "Seen"@,
        }
    }

    /// The head of the column.
    pub fn title(self) -> (r: &'static str)
        ensures
            r@ == self.title_spec(),
    {
        match self {
            DeviceColumn::Ip => "IP",
            DeviceColumn::Interface => "Iface",
            DeviceColumn::Mac => "MAC",
            DeviceColumn::Vendor => "Vendor",
            DeviceColumn::Model => "Model",
            DeviceColumn::Name => "Name",
            DeviceColumn::Os => "OS",
            DeviceColumn::Confidence => "Conf",
            DeviceColumn::Sources => "Sources",
            DeviceColumn::Seen => "Seen",
        }
    }

    /// The width of a column that does not adapt.
    pub open spec fn fixed_spec(self) -> Option<u16> {
        match self {
            DeviceColumn::Ip => Some(15u16),
            DeviceColumn::Interface => Some(8u16),
            DeviceColumn::Mac => Some(17u16),
            DeviceColumn::Vendor => None,
            DeviceColumn::Model => None,
            DeviceColumn::Name => None,
            DeviceColumn::Os => None,
            DeviceColumn::Confidence => Some(6u16),
            DeviceColumn::Sources => Some(10u16),
            DeviceColumn::Seen => Some(8u16),
        }
    }

    /// The width of a column that does not adapt. The sources are kept compact, so
    /// that they do not steal width from the identity columns.
    pub fn fixed_width(self) -> (r: Option<u16>)
        ensures
            r == self.fixed_spec(),
    {
        match self {
            DeviceColumn::Ip => Some(15),
            DeviceColumn::Interface => Some(8),
            DeviceColumn::Mac => Some(17),
            DeviceColumn::Vendor => None,
            DeviceColumn::Model => None,
            DeviceColumn::Name => None,
            DeviceColumn::Os => None,
            DeviceColumn::Confidence => Some(6),
            DeviceColumn::Sources => Some(10),
            DeviceColumn::Seen => Some(8),
        }
    }

    /// Reports whether the column's width adapts.
    pub fn is_elastic(self) -> (r: bool)
        ensures
            r == self.fixed_spec() is None,
    {
        self.fixed_width().is_none()
    }

    /// What the column shows of a device. `seen` is the local clock time at which the
    /// device was last seen.
    pub open spec fn text_of(self, d: DeviceView, options: OutputOptions, seen: Seq<char>) -> Seq<
        char,
    > {
        match self {
            DeviceColumn::Ip => d.ip.text_spec(),
            DeviceColumn::Interface => export::or_hyphen(d.interface),
            DeviceColumn::Mac => privacy::display_mac_spec(d.mac, options),
            DeviceColumn::Vendor => export::or_hyphen(d.vendor),
            DeviceColumn::Model => export::or_hyphen(export::guess_value(d.model)),
            DeviceColumn::Name => export::or_hyphen(d.hostname),
            DeviceColumn::Os => export::or_hyphen(export::guess_value(d.os)),
            DeviceColumn::Confidence => export::confidence_text_spec(d.identity_confidence()),
            DeviceColumn::Sources => sources::codes_spec(sources::sources_spec(d)),
            DeviceColumn::Seen => seen,
        }
    }

    /// What the column shows of a device.
    pub fn value(self, device: &Device, options: OutputOptions, seen: &str) -> (r: String)
        ensures
            r@ == self.text_of(device@, options, seen@),
    {
        match self {
            DeviceColumn::Ip => device.ip.text(),
            DeviceColumn::Interface => text_or_hyphen(&device.interface),
            DeviceColumn::Mac => display_mac(&device.mac, options),
            DeviceColumn::Vendor => text_or_hyphen(&device.vendor),
            DeviceColumn::Model => text_or_hyphen(&guess_text(&device.model)),
            DeviceColumn::Name => text_or_hyphen(&device.hostname),
            DeviceColumn::Os => text_or_hyphen(&guess_text(&device.os)),
            DeviceColumn::Confidence => confidence_text(device.identity_confidence()),
            DeviceColumn::Sources => compact_source_summary(device),
            DeviceColumn::Seen => owned(seen),
        }
    }

    /// The least useful width of a column: its title, or a short prefix and a tilde.
    pub open spec fn minimum_spec(self) -> u16 {
        if self.title_spec().len() < 4 {
            4
        } else {
            self.title_spec().len() as u16
        }
    }
}

impl DeviceTableColumn {
    /// The head of the column.
    pub fn title(self) -> (r: &'static str)
        ensures
            r@ == self.kind.title_spec(),
    {
        self.kind.title()
    }

    /// The number of characters that fit.
    pub fn max_chars(self) -> (r: usize)
        ensures
            r == self.width,
    {
        self.width as usize
    }

    /// What the column shows of a device.
    pub fn value(self, device: &Device, options: OutputOptions, seen: &str) -> (r: String)
        ensures
            r@ == self.kind.text_of(device@, options, seen@),
    {
        self.kind.value(device, options, seen)
    }
}

/// No title is longer than seven characters.
proof fn lemma_titles(kind: DeviceColumn)
    ensures
        kind.title_spec().len() <= 7,
        4 <= kind.minimum_spec() <= 7,
{
    reveal_strlit("IP");
    reveal_strlit("Iface");
    reveal_strlit("MAC");
    reveal_strlit("Vendor");
    reveal_strlit("Model");
    reveal_strlit("Name");
    reveal_strlit("OS");
    reveal_strlit("Conf");
    reveal_strlit("Sources");
    reveal_strlit("Seen");
}

/// The columns that a table of a width shows.
pub open spec fn kinds_spec(width: u16) -> Seq<DeviceColumn> {
    if width < 96 {
        seq![
            DeviceColumn::Ip,
            DeviceColumn::Interface,
            DeviceColumn::Name,
            DeviceColumn::Os,
            DeviceColumn::Confidence,
            DeviceColumn::Sources,
        ]
    } else if width < 150 {
        seq![
            DeviceColumn::Ip,
            DeviceColumn::Interface,
            DeviceColumn::Mac,
            DeviceColumn::Vendor,
            DeviceColumn::Name,
            DeviceColumn::Os,
            DeviceColumn::Confidence,
            DeviceColumn::Sources,
        ]
    } else {
        seq![
            DeviceColumn::Ip,
            DeviceColumn::Interface,
            DeviceColumn::Mac,
            DeviceColumn::Vendor,
            DeviceColumn::Model,
            DeviceColumn::Name,
            DeviceColumn::Os,
            DeviceColumn::Confidence,
            DeviceColumn::Sources,
            DeviceColumn::Seen,
        ]
    }
}

/// Lists the columns that a table of a width shows.
pub fn visible_column_kinds(width: u16) -> (r: Vec<DeviceColumn>)
    ensures
        r@ == kinds_spec(width),
{
    let mut kinds: Vec<DeviceColumn> = Vec::new();
    kinds.push(DeviceColumn::Ip);
    kinds.push(DeviceColumn::Interface);
    if width >= 96 {
        kinds.push(DeviceColumn::Mac);
        kinds.push(DeviceColumn::Vendor);
    }
    if width >= 150 {
        kinds.push(DeviceColumn::Model);
    }
    kinds.push(DeviceColumn::Name);
    kinds.push(DeviceColumn::Os);
    kinds.push(DeviceColumn::Confidence);
    kinds.push(DeviceColumn::Sources);
    if width >= 150 {
        kinds.push(DeviceColumn::Seen);
    }
    proof {
        assert(kinds@ =~= kinds_spec(width));
    }
    kinds
}

/// The cells that the columns of fixed width take.
pub open spec fn fixed_sum(kinds: Seq<DeviceColumn>) -> int
    decreases kinds.len(),
{
    if kinds.len() == 0 {
        0
    } else {
        fixed_sum(kinds.drop_last()) + (match kinds.last().fixed_spec() {
            Some(w) => w as int,
            None => 0,
        })
    }
}

/// The columns whose width adapts.
pub open spec fn elastic_kinds(kinds: Seq<DeviceColumn>) -> Seq<DeviceColumn>
    decreases kinds.len(),
{
    if kinds.len() == 0 {
        seq![]
    } else if kinds.last().fixed_spec() is None {
        elastic_kinds(kinds.drop_last()).push(kinds.last())
    } else {
        elastic_kinds(kinds.drop_last())
    }
}

/// The columns with their widths: the fixed ones, and in order those that are left.
pub open spec fn columns_spec(kinds: Seq<DeviceColumn>, widths: Seq<u16>) -> Seq<DeviceTableColumn>
    decreases kinds.len(),
{
    if kinds.len() == 0 {
        seq![]
    } else {
        let front = kinds.drop_last();
        let k = elastic_kinds(front).len() as int;
        let width = match kinds.last().fixed_spec() {
            Some(w) => w,
            None => if k < widths.len() {
                widths[k]
            } else {
                4
            },
        };
        columns_spec(front, widths).push(DeviceTableColumn { kind: kinds.last(), width })
    }
}

/// The cells left for the columns that adapt.
pub open spec fn elastic_total(width: u16) -> u16 {
    let left = layout::content_width_spec(width) - layout::spacing_spec(kinds_spec(width).len()) - fixed_sum(
        kinds_spec(width),
    );
    if left < 0 {
        0
    } else {
        left as u16
    }
}

/// The shape of the three column sets.
proof fn lemma_kinds(width: u16)
    ensures
        0 <= fixed_sum(kinds_spec(width)) <= 64,
        1 <= elastic_kinds(kinds_spec(width)).len() <= 4,
        elastic_kinds(kinds_spec(width)).len() == (if width < 96 {
            2int
        } else if width < 150 {
            3
        } else {
            4
        }),
        fixed_sum(kinds_spec(width)) == (if width < 96 {
            39int
        } else if width < 150 {
            56
        } else {
            64
        }),
        layout::spacing_spec(kinds_spec(width).len()) == (if width < 96 {
            10int
        } else if width < 150 {
            14
        } else {
            18
        }),
{
    let kinds = kinds_spec(width);
    if width < 96 {
        reveal_with_fuel(fixed_sum, 7);
        reveal_with_fuel(elastic_kinds, 7);
    } else if width < 150 {
        reveal_with_fuel(fixed_sum, 9);
        reveal_with_fuel(elastic_kinds, 9);
    } else {
        reveal_with_fuel(fixed_sum, 11);
        reveal_with_fuel(elastic_kinds, 11);
    }
}

/// Adds the widths of the fixed columns and lists those that adapt.
fn split_kinds(kinds: &Vec<DeviceColumn>) -> (r: (u16, Vec<DeviceColumn>))
    requires
        kinds@.len() <= 10,
    ensures
        r.0 == fixed_sum(kinds@),
        r.1@ == elastic_kinds(kinds@),
{
    let mut fixed: u16 = 0;
    let mut elastic: Vec<DeviceColumn> = Vec::new();
    let mut i: usize = 0;
    while i < kinds.len()
        invariant
            i <= kinds@.len() <= 10,
            fixed <= 17 * i,
            fixed == fixed_sum(kinds@.take(i as int)),
            elastic@ == elastic_kinds(kinds@.take(i as int)),
        decreases kinds@.len() - i,
    {
        proof {
            assert(kinds@.take(i + 1).drop_last() =~= kinds@.take(i as int));
            assert(kinds@.take(i + 1).last() == kinds@[i as int]);
        }
        match kinds[i].fixed_width() {
            Some(width) => {
                fixed = fixed + width;
            },
            None => {
                elastic.push(kinds[i]);
            },
        }
        i = i + 1;
    }
    proof {
        assert(kinds@.take(i as int) =~= kinds@);
    }
    (fixed, elastic)
}

/// Gives each column its width.
fn assign_widths(kinds: &Vec<DeviceColumn>, widths: &Vec<u16>) -> (r: Vec<DeviceTableColumn>)
    ensures
        r@ == columns_spec(kinds@, widths@),
{
    let mut columns: Vec<DeviceTableColumn> = Vec::new();
    let mut next: usize = 0;
    let mut i: usize = 0;
    while i < kinds.len()
        invariant
            i <= kinds@.len(),
            next <= i,
            next == elastic_kinds(kinds@.take(i as int)).len(),
            columns@ == columns_spec(kinds@.take(i as int), widths@),
        decreases kinds@.len() - i,
    {
        proof {
            assert(kinds@.take(i + 1).drop_last() =~= kinds@.take(i as int));
            assert(kinds@.take(i + 1).last() == kinds@[i as int]);
        }
        let width: u16 = match kinds[i].fixed_width() {
            Some(width) => width,
            None => {
                let width: u16 = if next < widths.len() {
                    widths[next]
                } else {
                    4
                };
                next = next + 1;
                width
            },
        };
        columns.push(DeviceTableColumn { kind: kinds[i], width });
        i = i + 1;
    }
    proof {
        assert(kinds@.take(i as int) =~= kinds@);
    }
    columns
}

/// Equal widths, none below four cells.
pub open spec fn equal_widths(total: u16, columns: nat) -> Seq<u16> {
    layout::spread_spec(total, columns).map_values(
        |w: u16|
            if w < 4 {
                4u16
            } else {
                w
            },
    )
}

/// Lists the columns of a table with no device: the columns that adapt share the
/// width equally.
pub fn visible_columns(width: u16) -> (r: Vec<DeviceTableColumn>)
    ensures
        r@ == columns_spec(
            kinds_spec(width),
            equal_widths(elastic_total(width), elastic_kinds(kinds_spec(width)).len()),
        ),
{
    let kinds = visible_column_kinds(width);
    let inner: u16 = panel_content_width(width).saturating_sub(table_spacing_width(kinds.len()));
    let (fixed, elastic) = split_kinds(&kinds);
    let total: u16 = inner.saturating_sub(fixed);
    proof {
        lemma_kinds(width);
        assert(total == elastic_total(width));
    }
    let shares = spread_width(total, elastic.len());
    let mut widths: Vec<u16> = Vec::new();
    let mut i: usize = 0;
    while i < shares.len()
        invariant
            i <= shares@.len(),
            shares@ == layout::spread_spec(total, elastic@.len()),
            widths@ == equal_widths(total, elastic@.len()).take(i as int),
        decreases shares@.len() - i,
    {
        widths.push(
            if shares[i] < 4 {
                4
            } else {
                shares[i]
            },
        );
        proof {
            let all = equal_widths(total, elastic@.len());
            assert(all.take(i + 1) =~= all.take(i as int).push(all[i as int]));
        }
        i = i + 1;
    }
    proof {
        assert(widths@ =~= equal_widths(total, elastic@.len()));
    }
    assign_widths(&kinds, &widths)
}

/// The content of devices behind references.
pub open spec fn device_views(devices: Seq<&Device>) -> Seq<DeviceView> {
    Seq::new(devices.len(), |i: int| devices[i]@)
}

/// The length of the longest text of a column.
pub open spec fn widest(
    kind: DeviceColumn,
    devices: Seq<DeviceView>,
    options: OutputOptions,
) -> nat
    decreases devices.len(),
{
    if devices.len() == 0 {
        0
    } else {
        let front = widest(kind, devices.drop_last(), options);
        let last = kind.text_of(devices.last(), options, seq![]).len();
        if last > front {
            last
        } else {
            front
        }
    }
}

/// The width at which a column cuts nothing.
pub open spec fn desired_spec(
    kind: DeviceColumn,
    devices: Seq<DeviceView>,
    options: OutputOptions,
) -> u16 {
    let values = widest(kind, devices, options);
    let title = kind.title_spec().len();
    let longest = if values > title {
        values
    } else {
        title
    };
    if longest > u16::MAX {
        u16::MAX
    } else {
        longest as u16
    }
}

/// Measures a column that adapts.
fn desired_device_column_width(
    kind: DeviceColumn,
    devices: &Vec<&Device>,
    options: OutputOptions,
) -> (r: u16)
    requires
        kind.fixed_spec() is None,
    ensures
        r == desired_spec(kind, device_views(devices@), options),
{
    let ghost views = device_views(devices@);
    proof {
        lemma_titles(kind);
    }
    let mut longest: usize = chars(kind.title()).len();
    let ghost title = kind.title_spec().len();
    let mut i: usize = 0;
    while i < devices.len()
        invariant
            i <= devices@.len(),
            views == device_views(devices@),
            longest == (if widest(kind, views.take(i as int), options) > title {
                widest(kind, views.take(i as int), options)
            } else {
                title
            }),
        decreases devices@.len() - i,
    {
        proof {
            assert(views.take(i + 1).drop_last() =~= views.take(i as int));
            assert(views.take(i + 1).last() == devices@[i as int]@);
        }
        let value = kind.value(devices[i], options, "");
        proof {
            reveal_strlit("");
            assert(""@ =~= seq![]);
        }
        let length: usize = chars(value.as_str()).len();
        if length > longest {
            longest = length;
        }
        i = i + 1;
    }
    proof {
        assert(views.take(i as int) =~= views);
    }
    if longest > u16::MAX as usize {
        u16::MAX
    } else {
        longest as u16
    }
}

/// The widths at which columns cut nothing.
pub open spec fn desired_widths(
    kinds: Seq<DeviceColumn>,
    devices: Seq<DeviceView>,
    options: OutputOptions,
) -> Seq<u16> {
    Seq::new(kinds.len(), |i: int| desired_spec(kinds[i], devices, options))
}

/// The least useful widths of columns.
pub open spec fn minimum_widths(kinds: Seq<DeviceColumn>) -> Seq<u16> {
    Seq::new(kinds.len(), |i: int| kinds[i].minimum_spec())
}

/// One pass over the columns from `i` on that gives a cell to each that is narrower
/// than it should be, as long as cells are left.
pub open spec fn feed_pass(widths: Seq<u16>, desired: Seq<u16>, i: int, left: int) -> (
    Seq<u16>,
    int,
)
    decreases widths.len() - i,
{
    if i < 0 || i >= widths.len() || i >= desired.len() || left <= 0 {
        (widths, left)
    } else if widths[i] < desired[i] {
        feed_pass(widths.update(i, (widths[i] + 1) as u16), desired, i + 1, left - 1)
    } else {
        feed_pass(widths, desired, i + 1, left)
    }
}

/// Passes until no cell is left or no column wants one.
pub open spec fn feed_passes(widths: Seq<u16>, desired: Seq<u16>, left: int) -> (Seq<u16>, int)
    decreases left,
{
    let (w, o) = feed_pass(widths, desired, 0, left);
    if left <= 0 {
        (widths, left)
    } else if o < 0 || o >= left {
        (w, left)
    } else {
        feed_passes(w, desired, o)
    }
}

/// A pass adds to the sum what it takes from the cells that are left.
proof fn lemma_feed_pass(widths: Seq<u16>, desired: Seq<u16>, i: int, left: int)
    requires
        0 <= i,
        0 <= left,
    ensures
        ({
            let (w, o) = feed_pass(widths, desired, i, left);
            &&& 0 <= o <= left
            &&& w.len() == widths.len()
            &&& layout::sum_spec(w) + o == layout::sum_spec(widths) + left
        }),
    decreases widths.len() - i,
{
    if i < widths.len() && i < desired.len() && left > 0 {
        if widths[i] < desired[i] {
            let next = (widths[i] + 1) as u16;
            crate::output::live::layout::lemma_sum_update(widths, i, next);
            lemma_feed_pass(widths.update(i, next), desired, i + 1, left - 1);
        } else {
            lemma_feed_pass(widths, desired, i + 1, left);
        }
    }
}

/// The passes add to the sum what they take from the cells that are left.
proof fn lemma_feed_passes(widths: Seq<u16>, desired: Seq<u16>, left: int)
    requires
        0 <= left,
    ensures
        ({
            let (w, o) = feed_passes(widths, desired, left);
            &&& 0 <= o <= left
            &&& w.len() == widths.len()
            &&& layout::sum_spec(w) + o == layout::sum_spec(widths) + left
        }),
    decreases left,
{
    lemma_feed_pass(widths, desired, 0, left);
    let (w, o) = feed_pass(widths, desired, 0, left);
    if left > 0 && o < left {
        lemma_feed_passes(w, desired, o);
    }
}

/// The widths of the columns that adapt. Each gets its minimum first; extra width goes
/// to columns that have content to display, and what is left then is spread evenly.
pub open spec fn elastic_widths(
    total: u16,
    kinds: Seq<DeviceColumn>,
    devices: Seq<DeviceView>,
    options: OutputOptions,
) -> Seq<u16> {
    let minimum = minimum_widths(kinds);
    if kinds.len() == 0 {
        seq![]
    } else if total <= layout::sum_spec(minimum) {
        layout::spread_spec(total, kinds.len())
    } else {
        let (fed, left) = feed_passes(
            minimum,
            desired_widths(kinds, devices, options),
            total - layout::sum_spec(minimum),
        );
        let even = layout::spread_spec(left as u16, kinds.len());
        Seq::new(kinds.len(), |i: int| (fed[i] + even[i]) as u16)
    }
}

/// One pass that gives a cell to each column that is narrower than it should be.
fn feed_once(widths: &mut Vec<u16>, desired: &Vec<u16>, cells: u16) -> (r: u16)
    ensures
        (final(widths)@, r as int) == feed_pass(old(widths)@, desired@, 0, cells as int),
        r <= cells,
        final(widths)@.len() == old(widths)@.len(),
{
    let ghost start = widths@;
    let mut left: u16 = cells;
    let mut i: usize = 0;
    while i < widths.len() && i < desired.len() && left > 0
        invariant
            i <= widths@.len(),
            widths@.len() == start.len(),
            left <= cells,
            feed_pass(start, desired@, 0, cells as int) == feed_pass(
                widths@,
                desired@,
                i as int,
                left as int,
            ),
        decreases widths@.len() - i,
    {
        if widths[i] < desired[i] {
            let next: u16 = widths[i] + 1;
            widths.set(i, next);
            left = left - 1;
        }
        i = i + 1;
    }
    left
}

/// Feeds columns until no cell is left or no column wants one.
fn feed(widths: &mut Vec<u16>, desired: &Vec<u16>, cells: u16) -> (r: u16)
    ensures
        (final(widths)@, r as int) == feed_passes(old(widths)@, desired@, cells as int),
{
    let ghost start = widths@;
    let mut left: u16 = cells;
    let mut moving = true;
    while left > 0 && moving
        invariant
            moving ==> feed_passes(start, desired@, cells as int) == feed_passes(
                widths@,
                desired@,
                left as int,
            ),
            !moving ==> left > 0 && feed_passes(start, desired@, cells as int) == (
                widths@,
                left as int,
            ),
        decreases left, (if moving {
            1int
        } else {
            0int
        }),
    {
        proof {
            lemma_feed_pass(widths@, desired@, 0, left as int);
        }
        let next: u16 = feed_once(widths, desired, left);
        if next == left {
            moving = false;
        }
        left = next;
    }
    left
}

/// Lists the least useful widths.
fn minimums(kinds: &Vec<DeviceColumn>) -> (r: Vec<u16>)
    requires
        kinds@.len() <= 10,
    ensures
        r@ == minimum_widths(kinds@),
        0 <= layout::sum_spec(r@) <= 70,
{
    let mut out: Vec<u16> = Vec::new();
    let mut i: usize = 0;
    while i < kinds.len()
        invariant
            i <= kinds@.len() <= 10,
            out@ == minimum_widths(kinds@).take(i as int),
            0 <= layout::sum_spec(out@) <= 7 * i,
        decreases kinds@.len() - i,
    {
        let kind = kinds[i];
        proof {
            lemma_titles(kind);
        }
        let title: usize = chars(kind.title()).len();
        let width: u16 = if title < 4 {
            4
        } else {
            title as u16
        };
        let ghost before = out@;
        out.push(width);
        proof {
            assert(out@.drop_last() =~= before);
            assert(minimum_widths(kinds@).take(i + 1) =~= minimum_widths(kinds@).take(
                i as int,
            ).push(width));
        }
        i = i + 1;
    }
    proof {
        assert(out@ =~= minimum_widths(kinds@));
    }
    out
}

/// Measures the columns that adapt.
fn desires(kinds: &Vec<DeviceColumn>, devices: &Vec<&Device>, options: OutputOptions) -> (r: Vec<
    u16,
>)
    requires
        forall|i: int| 0 <= i < kinds@.len() ==> (#[trigger] kinds@[i]).fixed_spec() is None,
    ensures
        r@ == desired_widths(kinds@, device_views(devices@), options),
{
    let mut out: Vec<u16> = Vec::new();
    let mut i: usize = 0;
    while i < kinds.len()
        invariant
            i <= kinds@.len(),
            forall|k: int| 0 <= k < kinds@.len() ==> (#[trigger] kinds@[k]).fixed_spec() is None,
            out@ == desired_widths(kinds@, device_views(devices@), options).take(i as int),
        decreases kinds@.len() - i,
    {
        let kind = kinds[i];
        let width: u16 = desired_device_column_width(kind, devices, options);
        out.push(width);
        proof {
            let all = desired_widths(kinds@, device_views(devices@), options);
            assert(all.take(i + 1) =~= all.take(i as int).push(width));
        }
        i = i + 1;
    }
    proof {
        assert(out@ =~= desired_widths(kinds@, device_views(devices@), options));
    }
    out
}

/// Every column that adapts has no fixed width.
proof fn lemma_elastic(kinds: Seq<DeviceColumn>)
    ensures
        elastic_kinds(kinds).len() <= kinds.len(),
        forall|i: int|
            0 <= i < elastic_kinds(kinds).len() ==> (#[trigger] elastic_kinds(
                kinds,
            )[i]).fixed_spec() is None,
    decreases kinds.len(),
{
    if kinds.len() > 0 {
        lemma_elastic(kinds.drop_last());
        assert forall|i: int| 0 <= i < elastic_kinds(kinds).len() implies (
        #[trigger] elastic_kinds(kinds)[i]).fixed_spec() is None by {
            if i < elastic_kinds(kinds.drop_last()).len() {
                assert(elastic_kinds(kinds)[i] == elastic_kinds(kinds.drop_last())[i]);
            }
        }
    }
}

/// Distributes a width over the columns that adapt.
fn allocate_elastic_device_widths(
    total: u16,
    kinds: &Vec<DeviceColumn>,
    devices: &Vec<&Device>,
    options: OutputOptions,
) -> (r: Vec<u16>)
    requires
        kinds@.len() <= 10,
        forall|i: int| 0 <= i < kinds@.len() ==> (#[trigger] kinds@[i]).fixed_spec() is None,
    ensures
        r@ == elastic_widths(total, kinds@, device_views(devices@), options),
{
    if kinds.len() == 0 {
        let none: Vec<u16> = Vec::new();
        proof {
            assert(none@ =~= seq![]);
        }
        return none;
    }
    let minimum = minimums(kinds);
    let minimum_total: u16 = sum_widths(&minimum);
    if total <= minimum_total {
        return spread_width(total, kinds.len());
    }
    let desired = desires(kinds, devices, options);
    let mut widths = minimum;
    proof {
        lemma_feed_passes(widths@, desired@, total - minimum_total);
    }
    let left: u16 = feed(&mut widths, &desired, total - minimum_total);
    let even = spread_width(left, kinds.len());
    let ghost fed = widths@;
    proof {
        crate::output::live::layout::law_spread_uses_the_width(left, kinds@.len());
    }
    let mut i: usize = 0;
    while i < widths.len()
        invariant
            i <= widths@.len(),
            widths@.len() == fed.len(),
            even@.len() == fed.len(),
            layout::sum_spec(fed) + layout::sum_spec(even@) == total,
            0 <= layout::sum_spec(even@),
            forall|k: int| 0 <= k < i ==> widths@[k] == fed[k] + even@[k],
            forall|k: int| i <= k < fed.len() ==> widths@[k] == fed[k],
        decreases widths@.len() - i,
    {
        proof {
            crate::output::live::layout::lemma_width_in_sum(fed, i as int);
            crate::output::live::layout::lemma_width_in_sum(even@, i as int);
        }
        let width: u16 = widths[i] + even[i];
        widths.set(i, width);
        i = i + 1;
    }
    proof {
        assert(widths@ =~= elastic_widths(total, kinds@, device_views(devices@), options));
    }
    widths
}

/// Lists the columns of a table for its devices.
pub fn visible_columns_for_devices(
    width: u16,
    devices: &Vec<&Device>,
    options: OutputOptions,
) -> (r: Vec<DeviceTableColumn>)
    ensures
        r@ == columns_spec(
            kinds_spec(width),
            elastic_widths(
                elastic_total(width),
                elastic_kinds(kinds_spec(width)),
                device_views(devices@),
                options,
            ),
        ),
{
    let kinds = visible_column_kinds(width);
    let inner: u16 = panel_content_width(width).saturating_sub(table_spacing_width(kinds.len()));
    let (fixed, elastic) = split_kinds(&kinds);
    let total: u16 = inner.saturating_sub(fixed);
    proof {
        lemma_kinds(width);
        lemma_elastic(kinds@);
        assert(total == elastic_total(width));
    }
    let widths = allocate_elastic_device_widths(total, &elastic, devices, options);
    assign_widths(&kinds, &widths)
}

/// Adding two lists of widths adds their sums.
proof fn lemma_sum_both(a: Seq<u16>, b: Seq<u16>)
    requires
        a.len() == b.len(),
        forall|i: int| 0 <= i < a.len() ==> (#[trigger] a[i]) + b[i] <= u16::MAX,
    ensures
        layout::sum_spec(Seq::new(a.len(), |i: int| (a[i] + b[i]) as u16)) == layout::sum_spec(a) + layout::sum_spec(b),
    decreases a.len(),
{
    let both = Seq::new(a.len(), |i: int| (a[i] + b[i]) as u16);
    if a.len() > 0 {
        assert forall|i: int| 0 <= i < a.drop_last().len() implies (#[trigger] a.drop_last()[i])
            + b.drop_last()[i] <= u16::MAX by {
            assert(a[i] + b[i] <= u16::MAX);
        }
        lemma_sum_both(a.drop_last(), b.drop_last());
        assert(both.drop_last() =~= Seq::new(
            a.drop_last().len(),
            |i: int| (a.drop_last()[i] + b.drop_last()[i]) as u16,
        ));
        assert(a[a.len() - 1] + b[a.len() - 1] <= u16::MAX);
    }
}

/// The columns that adapt use exactly the width that is left for them.
pub proof fn law_elastic_columns_use_the_width(
    total: u16,
    kinds: Seq<DeviceColumn>,
    devices: Seq<DeviceView>,
    options: OutputOptions,
)
    requires
        0 < kinds.len() <= u16::MAX,
    ensures
        elastic_widths(total, kinds, devices, options).len() == kinds.len(),
        layout::sum_spec(elastic_widths(total, kinds, devices, options)) == total,
{
    let minimum = minimum_widths(kinds);
    if total <= layout::sum_spec(minimum) {
        crate::output::live::layout::law_spread_uses_the_width(total, kinds.len());
    } else {
        let desired = desired_widths(kinds, devices, options);
        crate::output::live::layout::lemma_sum_prefix(minimum, 0);
        lemma_feed_passes(minimum, desired, total - layout::sum_spec(minimum));
        let (fed, left) = feed_passes(minimum, desired, total - layout::sum_spec(minimum));
        let even = layout::spread_spec(left as u16, kinds.len());
        crate::output::live::layout::law_spread_uses_the_width(left as u16, kinds.len());
        assert forall|i: int| 0 <= i < fed.len() implies (#[trigger] fed[i]) + even[i]
            <= u16::MAX by {
            crate::output::live::layout::lemma_width_in_sum(fed, i);
            crate::output::live::layout::lemma_width_in_sum(even, i);
        }
        lemma_sum_both(fed, even);
        assert(elastic_widths(total, kinds, devices, options) =~= Seq::new(
            fed.len(),
            |i: int| (fed[i] + even[i]) as u16,
        ));
    }
}

/// The cells that columns take.
pub open spec fn columns_sum(columns: Seq<DeviceTableColumn>) -> int
    decreases columns.len(),
{
    if columns.len() == 0 {
        0
    } else {
        columns_sum(columns.drop_last()) + columns.last().width
    }
}

/// Columns take the fixed widths and the widths that were handed out.
proof fn lemma_columns_sum(kinds: Seq<DeviceColumn>, widths: Seq<u16>)
    requires
        elastic_kinds(kinds).len() <= widths.len(),
    ensures
        columns_sum(columns_spec(kinds, widths)) == fixed_sum(kinds) + layout::sum_spec(
            widths.take(elastic_kinds(kinds).len() as int),
        ),
        columns_spec(kinds, widths).len() == kinds.len(),
    decreases kinds.len(),
{
    if kinds.len() > 0 {
        let front = kinds.drop_last();
        let k = elastic_kinds(front).len() as int;
        lemma_columns_sum(front, widths);
        assert(columns_spec(kinds, widths).drop_last() =~= columns_spec(front, widths));
        if kinds.last().fixed_spec() is None {
            assert(widths.take(k + 1).drop_last() =~= widths.take(k));
        }
    }
}

/// From 53 cells on, the columns and the blanks between them fill the panel exactly,
/// whatever the devices are.
pub proof fn law_columns_fill_the_panel(
    width: u16,
    devices: Seq<DeviceView>,
    options: OutputOptions,
)
    requires
        width >= 53,
    ensures
        ({
            let kinds = kinds_spec(width);
            let widths = elastic_widths(
                elastic_total(width),
                elastic_kinds(kinds),
                devices,
                options,
            );
            columns_sum(columns_spec(kinds, widths)) + layout::spacing_spec(kinds.len())
                == layout::content_width_spec(width)
        }),
{
    let kinds = kinds_spec(width);
    let elastic = elastic_kinds(kinds);
    let widths = elastic_widths(elastic_total(width), elastic, devices, options);
    lemma_kinds(width);
    law_elastic_columns_use_the_width(elastic_total(width), elastic, devices, options);
    lemma_columns_sum(kinds, widths);
    assert(widths.take(elastic.len() as int) =~= widths);
}

/// The weight of what is known of a device, for its color.
#[derive(Clone, Copy, Debug, PartialEq, Eq, Structural)]
pub enum RowTone {
    /// The device was not seen in this round.
    Stale,
    /// Something beyond the vendor is known.
    Identified,
    /// Only the vendor of the hardware address is known: useful but weak.
    VendorOnly,
    /// Nothing is known.
    Unknown,
}

/// The tone of a device that was seen in this round.
pub open spec fn tone_spec(d: DeviceView) -> RowTone {
    if d.hostname is Some || d.make is Some || d.model is Some || d.os is Some
        || d.device_type is Some {
        RowTone::Identified
    } else if d.vendor is Some {
        RowTone::VendorOnly
    } else {
        RowTone::Unknown
    }
}

/// Picks the tone of a device that was seen in this round.
pub fn device_row_style(device: &Device) -> (r: RowTone)
    ensures
        r == tone_spec(device@),
{
    if device.hostname.is_some() || device.make.is_some() || device.model.is_some()
        || device.os.is_some() || device.device_type.is_some() {
        RowTone::Identified
    } else if device.vendor.is_some() {
        RowTone::VendorOnly
    } else {
        RowTone::Unknown
    }
}

/// The cells of a device's row.
pub open spec fn row_cells(
    d: DeviceView,
    columns: Seq<DeviceTableColumn>,
    options: OutputOptions,
    seen: Seq<char>,
) -> Seq<Seq<char>> {
    Seq::new(
        columns.len(),
        |i: int| layout::fit_spec(columns[i].kind.text_of(d, options, seen), columns[i].width as nat),
    )
}

/// Builds the row of a device: its cells, and its tone.
pub fn device_row(
    device: &Device,
    columns: &Vec<DeviceTableColumn>,
    options: OutputOptions,
    seen: &str,
    current_round: bool,
) -> (r: (Vec<String>, RowTone))
    ensures
        r.0.deep_view() == row_cells(device@, columns@, options, seen@),
        r.1 == (if current_round {
            tone_spec(device@)
        } else {
            RowTone::Stale
        }),
{
    let ghost want = row_cells(device@, columns@, options, seen@);
    let mut cells: Vec<String> = Vec::new();
    let mut i: usize = 0;
    proof {
        assert(cells.deep_view() =~= want.take(0));
    }
    while i < columns.len()
        invariant
            i <= columns@.len(),
            want == row_cells(device@, columns@, options, seen@),
            cells.deep_view() == want.take(i as int),
        decreases columns@.len() - i,
    {
        let ghost before = cells.deep_view();
        let cell = fit_cell(columns[i].value(device, options, seen), columns[i].max_chars());
        cells.push(cell);
        proof {
            assert(cells.deep_view() =~= before.push(want[i as int]));
            assert(want.take(i + 1) =~= want.take(i as int).push(want[i as int]));
        }
        i = i + 1;
    }
    proof {
        assert(want.take(i as int) =~= want);
    }
    let tone = if current_round {
        device_row_style(device)
    } else {
        RowTone::Stale
    };
    (cells, tone)
}

} // verus!
