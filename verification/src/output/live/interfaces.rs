//! Interface reference panel for the live view.
//!
//! Interfaces are context for interpreting scan results, especially when the same
//! address can exist on several networks. The panel is deliberately compact and gives
//! most width to the device and log views.

use crate::net::{InterfaceInfo, InterfaceInfoView};
use crate::output::live::layout::{
    fit_cell, panel_content_width, shrink_widths_to_fit, sum_widths, table_spacing_width,
    PANEL_FRAME_WIDTH,
};
use crate::output::live::layout;
use crate::output::privacy::{display_mac, OutputOptions};
use crate::output::privacy;
use crate::text::{chars, owned, str_eq};
use vstd::prelude::*;

verus! {

/// The least width of the panel beside the interfaces.
pub const MIN_LIVE_SCAN_PANEL_WIDTH: u16 = 24;

/// The interfaces that the panel has room for.
pub const INTERFACE_PANEL_VISIBLE_ROWS: u16 = 6;

/// The width of the panel's own title with a border on each side.
pub const INTERFACE_TITLE_WIDTH: u16 = 12;

/// The interfaces that the live view lists.
#[derive(Debug, PartialEq, Eq)]
pub struct LiveInterfacePanel {
    pub interfaces: Vec<InterfaceInfo>,
    pub default_interface: Option<String>,
    pub scan_interfaces: Vec<String>,
}

/// The mathematical content of a [`LiveInterfacePanel`].
#[verifier::ext_equal]
pub struct LiveInterfacePanelView {
    pub interfaces: Seq<InterfaceInfoView>,
    pub default_interface: Option<Seq<char>>,
    pub scan_interfaces: Seq<Seq<char>>,
}

impl View for LiveInterfacePanel {
    type V = LiveInterfacePanelView;

    open spec fn view(&self) -> LiveInterfacePanelView {
        LiveInterfacePanelView {
            interfaces: self.interfaces.deep_view(),
            default_interface: self.default_interface.deep_view(),
            scan_interfaces: self.scan_interfaces.deep_view(),
        }
    }
}

impl DeepView for LiveInterfacePanel {
    type V = LiveInterfacePanelView;

    open spec fn deep_view(&self) -> LiveInterfacePanelView {
        self@
    }
}

impl Clone for LiveInterfacePanel {
    fn clone(&self) -> (r: Self)
        ensures
            r@ == self@,
    {
        let r = LiveInterfacePanel {
            interfaces: self.interfaces.clone(),
            default_interface: self.default_interface.clone(),
            scan_interfaces: self.scan_interfaces.clone(),
        };
        proof {
            assert(r.interfaces.deep_view() =~= self.interfaces.deep_view());
            assert(r.default_interface.deep_view() =~= self.default_interface.deep_view());
            assert(r.scan_interfaces.deep_view() =~= self.scan_interfaces.deep_view());
        }
        r
    }
}

impl Default for LiveInterfacePanel {
    fn default() -> (r: Self)
        ensures
            r@ == (LiveInterfacePanelView {
                interfaces: seq![],
                default_interface: None,
                scan_interfaces: seq![],
            }),
    {
        let r = LiveInterfacePanel {
            interfaces: Vec::new(),
            default_interface: None,
            scan_interfaces: Vec::new(),
        };
        proof {
            assert(r.interfaces.deep_view() =~= seq![]);
            assert(r.scan_interfaces.deep_view() =~= seq![]);
        }
        r
    }
}

/// A column of the interface table.
#[derive(Clone, Copy, Debug, PartialEq, Eq, Structural)]
pub enum InterfaceColumn {
    Use,
    Default,
    Name,
    Ipv4,
    Network,
    Mac,
}

/// A column with its width.
#[derive(Clone, Copy, Debug, PartialEq, Eq, Structural)]
pub struct InterfaceTableColumn {
    pub kind: InterfaceColumn,
    pub width: u16,
}

impl InterfaceColumn {
    /// The head of the column.
    pub open spec fn title_spec(self) -> Seq<char> {
        match self {
            InterfaceColumn::Use => "Use"@,
            InterfaceColumn::Default => "Def"@,
            InterfaceColumn::Name => "Name"@,
            InterfaceColumn::Ipv4 => "IPv4"@,
            InterfaceColumn::Network => "Network"@,
            InterfaceColumn::Mac => "MAC"@,
        }
    }

    /// The head of the column.
    pub fn title(self) -> (r: &'static str)
        ensures
            r@ == self.title_spec(),
    {
        match self {
            InterfaceColumn::Use => "Use",
            InterfaceColumn::Default => "Def",
            InterfaceColumn::Name => "Name",
            InterfaceColumn::Ipv4 => "IPv4",
            InterfaceColumn::Network => "Network",
            InterfaceColumn::Mac => "MAC",
        }
    }

    /// What the column shows of an interface.
    pub open spec fn text_of(
        self,
        iface: InterfaceInfoView,
        options: OutputOptions,
        is_scanned: bool,
        is_default: bool,
    ) -> Seq<char> {
        match self {
            InterfaceColumn::Use => if is_scanned {
                "scan"@
            } else {
                "-"@
            },
            InterfaceColumn::Default => if is_default {
                "*"@
            } else {
                "-"@
            },
            InterfaceColumn::Name => iface.name,
            InterfaceColumn::Ipv4 => iface.ip.text_spec(),
            InterfaceColumn::Network => iface.network.text_spec(),
            InterfaceColumn::Mac => privacy::display_mac_spec(iface.mac, options),
        }
    }

    /// What the column shows of an interface.
    pub fn value(
        self,
        iface: &InterfaceInfo,
        options: OutputOptions,
        is_scanned: bool,
        is_default: bool,
    ) -> (r: String)
        ensures
            r@ == self.text_of(iface@, options, is_scanned, is_default),
    {
        match self {
            InterfaceColumn::Use => owned(
                if is_scanned {
                    "scan"
                } else {
                    "-"
                },
            ),
            InterfaceColumn::Default => owned(
                if is_default {
                    "*"
                } else {
                    "-"
                },
            ),
            InterfaceColumn::Name => iface.name.clone(),
            InterfaceColumn::Ipv4 => iface.ip.text(),
            InterfaceColumn::Network => iface.network.text(),
            InterfaceColumn::Mac => display_mac(&iface.mac, options),
        }
    }

    /// The least useful width of the column.
    pub open spec fn minimum_spec(self) -> u16 {
        match self {
            InterfaceColumn::Use => 3,
            InterfaceColumn::Default => 3,
            InterfaceColumn::Name => 4,
            InterfaceColumn::Ipv4 => 7,
            InterfaceColumn::Network => 7,
            InterfaceColumn::Mac => 8,
        }
    }

    /// The least useful width of the column.
    pub fn minimum_width(self) -> (r: u16)
        ensures
            r == self.minimum_spec(),
    {
        match self {
            InterfaceColumn::Use => 3,
            InterfaceColumn::Default => 3,
            InterfaceColumn::Name => 4,
            InterfaceColumn::Ipv4 => 7,
            InterfaceColumn::Network => 7,
            InterfaceColumn::Mac => 8,
        }
    }
}

/// The height of the interface panel: a fixed number of rows, a head and the borders.
/// It does not depend on the interfaces, so that the top row does not jump between
/// machines.
pub fn interface_panel_height() -> (r: u16)
    ensures
        r == INTERFACE_PANEL_VISIBLE_ROWS + 3,
{
    INTERFACE_PANEL_VISIBLE_ROWS + 3
}

/// The height of the top row.
pub fn top_panel_height() -> (r: u16)
    ensures
        r == INTERFACE_PANEL_VISIBLE_ROWS + 3,
{
    let height: u16 = interface_panel_height();
    if height > 3 {
        height
    } else {
        3
    }
}

/// An interface of the panel is scanned.
pub open spec fn scanned_in(panel: LiveInterfacePanelView, name: Seq<char>) -> bool {
    panel.scan_interfaces.contains(name)
}

/// An interface of the panel is the default one.
pub open spec fn default_in(panel: LiveInterfacePanelView, name: Seq<char>) -> bool {
    panel.default_interface == Some(name)
}

/// Reports whether an interface is scanned.
pub fn scans_interface(panel: &LiveInterfacePanel, iface: &InterfaceInfo) -> (r: bool)
    ensures
        r == scanned_in(panel@, iface@.name),
{
    let ghost views = panel.scan_interfaces.deep_view();
    let mut i: usize = 0;
    while i < panel.scan_interfaces.len()
        invariant
            i <= panel.scan_interfaces@.len(),
            views == panel.scan_interfaces.deep_view(),
            forall|k: int| 0 <= k < i ==> views[k] != iface@.name,
        decreases panel.scan_interfaces@.len() - i,
    {
        proof {
            assert(views[i as int] == panel.scan_interfaces@[i as int]@);
        }
        if str_eq(panel.scan_interfaces[i].as_str(), iface.name.as_str()) {
            proof {
                assert(views.contains(iface@.name));
            }
            return true;
        }
        i = i + 1;
    }
    false
}

/// Reports whether an interface is the default one.
fn is_default_interface(panel: &LiveInterfacePanel, iface: &InterfaceInfo) -> (r: bool)
    ensures
        r == default_in(panel@, iface@.name),
{
    match &panel.default_interface {
        Some(name) => str_eq(name.as_str(), iface.name.as_str()),
        None => false,
    }
}

/// What a column of the panel shows of an interface.
pub open spec fn panel_text(
    kind: InterfaceColumn,
    iface: InterfaceInfoView,
    panel: LiveInterfacePanelView,
    options: OutputOptions,
) -> Seq<char> {
    kind.text_of(
        iface,
        options,
        scanned_in(panel, iface.name),
        default_in(panel, iface.name),
    )
}

/// The length of the longest text of a column, over so many interfaces.
pub open spec fn widest_of(
    kind: InterfaceColumn,
    interfaces: Seq<InterfaceInfoView>,
    panel: LiveInterfacePanelView,
    options: OutputOptions,
) -> nat
    decreases interfaces.len(),
{
    if interfaces.len() == 0 {
        0
    } else {
        let front = widest_of(kind, interfaces.drop_last(), panel, options);
        let last = panel_text(kind, interfaces.last(), panel, options).len();
        if last > front {
            last
        } else {
            front
        }
    }
}

/// The width at which a column cuts nothing.
pub open spec fn column_need(
    kind: InterfaceColumn,
    panel: LiveInterfacePanelView,
    options: OutputOptions,
) -> u16 {
    let values = widest_of(kind, panel.interfaces, panel, options);
    let title = kind.title_spec().len();
    let longest = if values > title {
        values
    } else {
        title
    };
    if longest > u16::MAX {
        u16::MAX
    } else {
        longest as u16
    }
}

/// Measures a column.
fn desired_interface_column_width(
    kind: InterfaceColumn,
    panel: &LiveInterfacePanel,
    options: OutputOptions,
) -> (r: u16)
    ensures
        r == column_need(kind, panel@, options),
{
    let ghost views = panel.interfaces.deep_view();
    let ghost title = kind.title_spec().len();
    let mut longest: usize = chars(kind.title()).len();
    let mut i: usize = 0;
    while i < panel.interfaces.len()
        invariant
            i <= panel.interfaces@.len(),
            views == panel.interfaces.deep_view(),
            longest == (if widest_of(kind, views.take(i as int), panel@, options) > title {
                widest_of(kind, views.take(i as int), panel@, options)
            } else {
                title
            }),
        decreases panel.interfaces@.len() - i,
    {
        proof {
            assert(views.take(i + 1).drop_last() =~= views.take(i as int));
            assert(views.take(i + 1).last() == panel.interfaces@[i as int]@);
        }
        let iface = &panel.interfaces[i];
        let value = kind.value(
            iface,
            options,
            scans_interface(panel, iface),
            is_default_interface(panel, iface),
        );
        let length: usize = chars(value.as_str()).len();
        if length > longest {
            longest = length;
        }
        i = i + 1;
    }
    proof {
        assert(views.take(i as int) =~= views);
    }
    if longest > u16::MAX as usize {
        u16::MAX
    } else {
        longest as u16
    }
}

/// The widths at which columns cut nothing.
pub open spec fn needs(
    kinds: Seq<InterfaceColumn>,
    panel: LiveInterfacePanelView,
    options: OutputOptions,
) -> Seq<u16> {
    Seq::new(kinds.len(), |i: int| column_need(kinds[i], panel, options))
}

/// The texts of the panel are short enough for their widths to be added.
pub open spec fn measurable(panel: LiveInterfacePanelView, options: OutputOptions) -> bool {
    layout::sum_spec(needs(all_kinds(), panel, options)) <= u16::MAX
}

/// Measures columns.
fn measure(kinds: &Vec<InterfaceColumn>, panel: &LiveInterfacePanel, options: OutputOptions) -> (r:
    Vec<u16>)
    ensures
        r@ == needs(kinds@, panel@, options),
{
    let mut out: Vec<u16> = Vec::new();
    let mut i: usize = 0;
    while i < kinds.len()
        invariant
            i <= kinds@.len(),
            out@ == needs(kinds@, panel@, options).take(i as int),
        decreases kinds@.len() - i,
    {
        let width: u16 = desired_interface_column_width(kinds[i], panel, options);
        out.push(width);
        proof {
            let all = needs(kinds@, panel@, options);
            assert(all.take(i + 1) =~= all.take(i as int).push(width));
        }
        i = i + 1;
    }
    proof {
        assert(out@ =~= needs(kinds@, panel@, options));
    }
    out
}

/// All columns.
pub open spec fn all_kinds() -> Seq<InterfaceColumn> {
    seq![
        InterfaceColumn::Use,
        InterfaceColumn::Default,
        InterfaceColumn::Name,
        InterfaceColumn::Ipv4,
        InterfaceColumn::Network,
        InterfaceColumn::Mac,
    ]
}

/// The sets of columns, from all to the least useful; those of lower value are left
/// out first.
pub open spec fn candidate(i: int) -> Seq<InterfaceColumn> {
    if i <= 0 {
        all_kinds()
    } else if i == 1 {
        seq![
            InterfaceColumn::Use,
            InterfaceColumn::Default,
            InterfaceColumn::Name,
            InterfaceColumn::Ipv4,
            InterfaceColumn::Network,
        ]
    } else if i == 2 {
        seq![
            InterfaceColumn::Use,
            InterfaceColumn::Default,
            InterfaceColumn::Name,
            InterfaceColumn::Ipv4,
        ]
    } else if i == 3 {
        seq![InterfaceColumn::Use, InterfaceColumn::Name, InterfaceColumn::Ipv4]
    } else {
        seq![InterfaceColumn::Name, InterfaceColumn::Ipv4]
    }
}

/// Lists all columns.
pub fn interface_column_kinds() -> (r: Vec<InterfaceColumn>)
    ensures
        r@ == all_kinds(),
{
    candidate_kinds(0)
}

/// Lists the columns of a set.
fn candidate_kinds(i: u8) -> (r: Vec<InterfaceColumn>)
    ensures
        r@ == candidate(i as int),
{
    let mut kinds: Vec<InterfaceColumn> = Vec::new();
    if i <= 3 {
        kinds.push(InterfaceColumn::Use);
    }
    if i <= 2 {
        kinds.push(InterfaceColumn::Default);
    }
    kinds.push(InterfaceColumn::Name);
    kinds.push(InterfaceColumn::Ipv4);
    if i <= 1 {
        kinds.push(InterfaceColumn::Network);
    }
    if i == 0 {
        kinds.push(InterfaceColumn::Mac);
    }
    proof {
        assert(kinds@ =~= candidate(i as int));
    }
    kinds
}

/// The width of a panel that cuts nothing of its columns.
pub open spec fn panel_need(
    kinds: Seq<InterfaceColumn>,
    panel: LiveInterfacePanelView,
    options: OutputOptions,
) -> u16 {
    let need = layout::sum_spec(needs(kinds, panel, options)) + layout::spacing_spec(kinds.len())
        + PANEL_FRAME_WIDTH;
    if need > u16::MAX {
        u16::MAX
    } else {
        need as u16
    }
}

/// Measures a panel.
pub fn desired_interface_panel_width(
    kinds: &Vec<InterfaceColumn>,
    panel: &LiveInterfacePanel,
    options: OutputOptions,
) -> (r: u16)
    requires
        layout::sum_spec(needs(kinds@, panel@, options)) <= u16::MAX,
    ensures
        r == panel_need(kinds@, panel@, options),
{
    let widths = measure(kinds, panel, options);
    proof {
        crate::output::live::layout::lemma_sum_prefix(widths@, 0);
    }
    sum_widths(&widths).saturating_add(table_spacing_width(kinds.len())).saturating_add(
        PANEL_FRAME_WIDTH,
    )
}

/// The width that the interface panel takes of a row.
pub open spec fn interface_width_spec(
    available_width: u16,
    panel: LiveInterfacePanelView,
    options: OutputOptions,
) -> u16 {
    let need = panel_need(all_kinds(), panel, options);
    let desired = if need < INTERFACE_TITLE_WIDTH {
        INTERFACE_TITLE_WIDTH
    } else {
        need
    };
    if available_width <= MIN_LIVE_SCAN_PANEL_WIDTH {
        available_width
    } else if desired < available_width - MIN_LIVE_SCAN_PANEL_WIDTH {
        desired
    } else {
        (available_width - MIN_LIVE_SCAN_PANEL_WIDTH) as u16
    }
}

/// Decides how wide the interface panel is.
pub fn interface_panel_width(
    available_width: u16,
    panel: &LiveInterfacePanel,
    options: OutputOptions,
) -> (r: u16)
    requires
        measurable(panel@, options),
    ensures
        r == interface_width_spec(available_width, panel@, options),
{
    let kinds = interface_column_kinds();
    let need: u16 = desired_interface_panel_width(&kinds, panel, options);
    let desired: u16 = if need < INTERFACE_TITLE_WIDTH {
        INTERFACE_TITLE_WIDTH
    } else {
        need
    };
    let most: u16 = available_width.saturating_sub(MIN_LIVE_SCAN_PANEL_WIDTH);
    if most == 0 {
        available_width
    } else if desired < most {
        desired
    } else {
        most
    }
}

/// The log panel keeps its least width wherever the row has room for more than that.
pub proof fn law_log_panel_keeps_its_width(
    available_width: u16,
    panel: LiveInterfacePanelView,
    options: OutputOptions,
)
    requires
        available_width > MIN_LIVE_SCAN_PANEL_WIDTH,
    ensures
        available_width - interface_width_spec(available_width, panel, options)
            >= MIN_LIVE_SCAN_PANEL_WIDTH,
{
}

/// The first set of columns that fits a width, from `i` on; the last set where none
/// does.
pub open spec fn chosen(
    width: u16,
    panel: LiveInterfacePanelView,
    options: OutputOptions,
    i: int,
) -> int
    decreases 4 - i,
{
    if i >= 4 || panel_need(candidate(i), panel, options) <= width {
        i
    } else {
        chosen(width, panel, options, i + 1)
    }
}

/// Leaving columns out makes no sum larger.
proof fn lemma_candidates(i: int, panel: LiveInterfacePanelView, options: OutputOptions)
    requires
        0 <= i <= 4,
    ensures
        0 <= layout::sum_spec(needs(candidate(i), panel, options)) <= layout::sum_spec(
            needs(all_kinds(), panel, options),
        ),
{
    reveal_with_fuel(layout::sum_spec, 7);
    let n = needs(candidate(i), panel, options);
    let a = needs(all_kinds(), panel, options);
    if i == 0 {
        assert(n =~= a);
    }
}

/// The widths of columns within a panel.
pub open spec fn panel_widths(
    width: u16,
    kinds: Seq<InterfaceColumn>,
    panel: LiveInterfacePanelView,
    options: OutputOptions,
) -> Seq<u16> {
    let spacing = layout::spacing_spec(kinds.len());
    let inner = if layout::content_width_spec(width) < spacing {
        0
    } else {
        (layout::content_width_spec(width) - spacing) as u16
    };
    layout::fitted_spec(
        needs(kinds, panel, options),
        Seq::new(kinds.len(), |i: int| kinds[i].minimum_spec()),
        inner,
    )
}

/// Columns with their widths.
pub open spec fn table_columns(kinds: Seq<InterfaceColumn>, widths: Seq<u16>) -> Seq<
    InterfaceTableColumn,
> {
    Seq::new(kinds.len(), |i: int| InterfaceTableColumn { kind: kinds[i], width: widths[i] })
}

/// Lists the columns of the panel. All columns start at the width of their content;
/// those of lower value are left out only where the panel is too narrow.
pub fn visible_interface_columns(
    width: u16,
    panel: &LiveInterfacePanel,
    options: OutputOptions,
) -> (r: Vec<InterfaceTableColumn>)
    requires
        measurable(panel@, options),
    ensures
        ({
            let kinds = candidate(chosen(width, panel@, options, 0));
            r@ == table_columns(kinds, panel_widths(width, kinds, panel@, options))
        }),
{
    let mut i: u8 = 0;
    let mut kinds = candidate_kinds(0);
    let mut searching = true;
    proof {
        lemma_candidates(0, panel@, options);
    }
    while searching && i < 4
        invariant
            i <= 4,
            measurable(panel@, options),
            kinds@ == candidate(i as int),
            searching ==> chosen(width, panel@, options, 0) == chosen(
                width,
                panel@,
                options,
                i as int,
            ),
            !searching ==> chosen(width, panel@, options, 0) == i,
        decreases 4 - i, (if searching {
            1int
        } else {
            0int
        }),
    {
        proof {
            lemma_candidates(i as int, panel@, options);
        }
        if desired_interface_panel_width(&kinds, panel, options) <= width {
            searching = false;
        } else {
            i = i + 1;
            kinds = candidate_kinds(i);
        }
    }
    allocate_interface_columns(width, &kinds, panel, options, i)
}

/// Gives the columns of a set their widths.
fn allocate_interface_columns(
    width: u16,
    kinds: &Vec<InterfaceColumn>,
    panel: &LiveInterfacePanel,
    options: OutputOptions,
    set: u8,
) -> (r: Vec<InterfaceTableColumn>)
    requires
        measurable(panel@, options),
        set <= 4,
        kinds@ == candidate(set as int),
    ensures
        r@ == table_columns(kinds@, panel_widths(width, kinds@, panel@, options)),
{
    let inner: u16 = panel_content_width(width).saturating_sub(table_spacing_width(kinds.len()));
    let mut widths = measure(kinds, panel, options);
    let ghost measured = widths@;
    let mut minimums: Vec<u16> = Vec::new();
    let ghost least = Seq::new(kinds@.len(), |i: int| kinds@[i].minimum_spec());
    let mut i: usize = 0;
    while i < kinds.len()
        invariant
            i <= kinds@.len(),
            least == Seq::new(kinds@.len(), |i: int| kinds@[i].minimum_spec()),
            minimums@ == least.take(i as int),
        decreases kinds@.len() - i,
    {
        minimums.push(kinds[i].minimum_width());
        proof {
            assert(least.take(i + 1) =~= least.take(i as int).push(least[i as int]));
        }
        i = i + 1;
    }
    proof {
        assert(least.take(i as int) =~= least);
        lemma_candidates(set as int, panel@, options);
    }
    shrink_widths_to_fit(&mut widths, minimums, inner);
    proof {
        crate::output::live::layout::law_fitted_widths_fit(measured, least, inner);
    }
    let ghost want = table_columns(kinds@, panel_widths(width, kinds@, panel@, options));
    let mut columns: Vec<InterfaceTableColumn> = Vec::new();
    let mut k: usize = 0;
    while k < kinds.len()
        invariant
            k <= kinds@.len(),
            widths@.len() == kinds@.len(),
            widths@ == panel_widths(width, kinds@, panel@, options),
            want == table_columns(kinds@, panel_widths(width, kinds@, panel@, options)),
            columns@ == want.take(k as int),
        decreases kinds@.len() - k,
    {
        columns.push(InterfaceTableColumn { kind: kinds[k], width: widths[k] });
        proof {
            assert(want.take(k + 1) =~= want.take(k as int).push(want[k as int]));
        }
        k = k + 1;
    }
    proof {
        assert(want.take(k as int) =~= want);
    }
    columns
}

/// The columns never take more than the panel has for them.
pub proof fn law_interface_columns_fit(
    width: u16,
    kinds: Seq<InterfaceColumn>,
    panel: LiveInterfacePanelView,
    options: OutputOptions,
)
    requires
        kinds.len() <= u16::MAX,
        layout::spacing_spec(kinds.len()) <= layout::content_width_spec(width),
    ensures
        layout::sum_spec(panel_widths(width, kinds, panel, options)) + layout::spacing_spec(kinds.len())
            <= layout::content_width_spec(width),
{
    let inner = (layout::content_width_spec(width) - layout::spacing_spec(kinds.len())) as u16;
    crate::output::live::layout::law_fitted_widths_fit(
        needs(kinds, panel, options),
        Seq::new(kinds.len(), |i: int| kinds[i].minimum_spec()),
        inner,
    );
}

/// What an interface is to the scan, for its color.
#[derive(Clone, Copy, Debug, PartialEq, Eq, Structural)]
pub enum InterfaceTone {
    /// The interface is scanned.
    Scanned,
    /// The interface is the default one.
    Default,
    /// Neither.
    Other,
}

/// Picks the tone of an interface.
pub fn interface_row_style(is_scanned: bool, is_default: bool) -> (r: InterfaceTone)
    ensures
        r == (if is_scanned {
            InterfaceTone::Scanned
        } else if is_default {
            InterfaceTone::Default
        } else {
            InterfaceTone::Other
        }),
{
    if is_scanned {
        InterfaceTone::Scanned
    } else if is_default {
        InterfaceTone::Default
    } else {
        InterfaceTone::Other
    }
}

/// The cells of an interface's row.
pub open spec fn interface_cells(
    iface: InterfaceInfoView,
    columns: Seq<InterfaceTableColumn>,
    panel: LiveInterfacePanelView,
    options: OutputOptions,
) -> Seq<Seq<char>> {
    Seq::new(
        columns.len(),
        |i: int|
            layout::fit_spec(panel_text(columns[i].kind, iface, panel, options), columns[i].width as nat),
    )
}

/// Builds the row of an interface: its cells, and its tone.
pub fn interface_row(
    iface: &InterfaceInfo,
    columns: &Vec<InterfaceTableColumn>,
    panel: &LiveInterfacePanel,
    options: OutputOptions,
) -> (r: (Vec<String>, InterfaceTone))
    ensures
        r.0.deep_view() == interface_cells(iface@, columns@, panel@, options),
        r.1 == (if scanned_in(panel@, iface@.name) {
            InterfaceTone::Scanned
        } else if default_in(panel@, iface@.name) {
            InterfaceTone::Default
        } else {
            InterfaceTone::Other
        }),
{
    let is_scanned = scans_interface(panel, iface);
    let is_default = is_default_interface(panel, iface);
    let ghost want = interface_cells(iface@, columns@, panel@, options);
    let mut cells: Vec<String> = Vec::new();
    let mut i: usize = 0;
    proof {
        assert(cells.deep_view() =~= want.take(0));
    }
    while i < columns.len()
        invariant
            i <= columns@.len(),
            is_scanned == scanned_in(panel@, iface@.name),
            is_default == default_in(panel@, iface@.name),
            want == interface_cells(iface@, columns@, panel@, options),
            cells.deep_view() == want.take(i as int),
        decreases columns@.len() - i,
    {
        let ghost before = cells.deep_view();
        let value = columns[i].kind.value(iface, options, is_scanned, is_default);
        cells.push(fit_cell(value, columns[i].width as usize));
        proof {
            assert(cells.deep_view() =~= before.push(want[i as int]));
            assert(want.take(i + 1) =~= want.take(i as int).push(want[i as int]));
        }
        i = i + 1;
    }
    proof {
        assert(want.take(i as int) =~= want);
    }
    (cells, interface_row_style(is_scanned, is_default))
}

} // verus!
