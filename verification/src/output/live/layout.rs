//! Shared width and truncation helpers for the live view.
//!
//! Terminal tables need stable explicit widths. These helpers keep sizing rules
//! deterministic so refreshed rows do not resize or shift the interface while a scan
//! is running.

use crate::text::{chars, text};
use vstd::prelude::*;

verus! {

/// The blank cells between two columns.
pub const TABLE_COLUMN_SPACING: u16 = 2;

/// The blank cells inside the left and the right border of a panel.
pub const PANEL_HORIZONTAL_PADDING: u16 = 1;

/// The cells of a panel's width that its borders and padding take.
pub const PANEL_FRAME_WIDTH: u16 = 4;

/// The cells of a panel's width that its content can use.
pub open spec fn content_width_spec(width: u16) -> u16 {
    if width < PANEL_FRAME_WIDTH {
        0
    } else {
        (width - PANEL_FRAME_WIDTH) as u16
    }
}

/// Reports how many cells of a panel's width its content can use.
pub fn panel_content_width(width: u16) -> (r: u16)
    ensures
        r == content_width_spec(width),
{
    width.saturating_sub(PANEL_FRAME_WIDTH)
}

/// A text cut to so many characters; a tilde stands for what was cut off.
pub open spec fn fit_spec(value: Seq<char>, max_chars: nat) -> Seq<char> {
    if value.len() <= max_chars {
        value
    } else if max_chars == 0 {
        seq![]
    } else {
        value.take(max_chars - 1).push('~')
    }
}

/// Cuts a text to so many characters.
pub fn fit_cell(value: String, max_chars: usize) -> (r: String)
    ensures
        r@ == fit_spec(value@, max_chars as nat),
{
    let all = chars(value.as_str());
    if all.len() <= max_chars {
        return value;
    }
    if max_chars == 0 {
        return String::new();
    }
    let mut kept: Vec<char> = Vec::new();
    let mut i: usize = 0;
    while i < max_chars - 1
        invariant
            i < max_chars,
            max_chars < all@.len(),
            kept@ == all@.take(i as int),
        decreases max_chars - i,
    {
        kept.push(all[i]);
        proof {
            assert(all@.take(i + 1) =~= all@.take(i as int).push(all@[i as int]));
        }
        i = i + 1;
    }
    kept.push('~');
    text(kept.as_slice())
}

/// A cell is never longer than its column.
pub proof fn law_cell_fits(value: Seq<char>, max_chars: nat)
    ensures
        fit_spec(value, max_chars).len() <= max_chars,
        value.len() <= max_chars ==> fit_spec(value, max_chars) == value,
{
}

/// The first row shown, moved only as far as the selected row needs it.
pub open spec fn offset_spec(selected: usize, current_offset: usize, visible_rows: usize) -> usize {
    let rows = if visible_rows == 0 {
        1
    } else {
        visible_rows as int
    };
    if selected < current_offset {
        selected
    } else if selected >= current_offset + rows {
        (selected - (rows - 1)) as usize
    } else {
        current_offset
    }
}

/// Finds the first row to show.
pub fn corrected_table_offset(selected: usize, current_offset: usize, visible_rows: usize) -> (r:
    usize)
    ensures
        r == offset_spec(selected, current_offset, visible_rows),
{
    let rows: usize = if visible_rows == 0 {
        1
    } else {
        visible_rows
    };
    if selected < current_offset {
        selected
    } else if selected - current_offset >= rows {
        selected - (rows - 1)
    } else {
        current_offset
    }
}

/// The selected row is on screen, and the table moves only when it was not.
pub proof fn law_selection_stays_visible(
    selected: usize,
    current_offset: usize,
    visible_rows: usize,
)
    requires
        visible_rows > 0,
    ensures
        ({
            let offset = offset_spec(selected, current_offset, visible_rows);
            offset <= selected < offset + visible_rows
        }),
        current_offset <= selected < current_offset + visible_rows ==> offset_spec(
            selected,
            current_offset,
            visible_rows,
        ) == current_offset,
{
}

/// The sum of widths.
pub open spec fn sum_spec(widths: Seq<u16>) -> int
    decreases widths.len(),
{
    if widths.len() == 0 {
        0
    } else {
        sum_spec(widths.drop_last()) + widths.last()
    }
}

/// A sum is not negative, and no prefix has a larger one.
pub proof fn lemma_sum_prefix(widths: Seq<u16>, i: int)
    requires
        0 <= i <= widths.len(),
    ensures
        0 <= sum_spec(widths.take(i)) <= sum_spec(widths),
    decreases widths.len(),
{
    if i == widths.len() {
        assert(widths.take(i) =~= widths);
        if widths.len() > 0 {
            lemma_sum_prefix(widths.drop_last(), i - 1);
            assert(widths.drop_last().take(i - 1) =~= widths.drop_last());
        }
    } else {
        lemma_sum_prefix(widths.drop_last(), i);
        assert(widths.drop_last().take(i) =~= widths.take(i));
    }
}

/// Changing one width changes the sum by the difference.
pub proof fn lemma_sum_update(widths: Seq<u16>, i: int, v: u16)
    requires
        0 <= i < widths.len(),
    ensures
        sum_spec(widths.update(i, v)) == sum_spec(widths) - widths[i] + v,
    decreases widths.len(),
{
    let changed = widths.update(i, v);
    if i == widths.len() - 1 {
        assert(changed.drop_last() =~= widths.drop_last());
    } else {
        lemma_sum_update(widths.drop_last(), i, v);
        assert(changed.drop_last() =~= widths.drop_last().update(i, v));
    }
}

/// Every width is at most the sum.
pub proof fn lemma_width_in_sum(widths: Seq<u16>, i: int)
    requires
        0 <= i < widths.len(),
    ensures
        widths[i] <= sum_spec(widths),
{
    lemma_sum_prefix(widths, i + 1);
    lemma_sum_prefix(widths, i);
    assert(widths.take(i + 1).drop_last() =~= widths.take(i));
}

/// Adds widths.
pub fn sum_widths(widths: &Vec<u16>) -> (r: u16)
    requires
        sum_spec(widths@) <= u16::MAX,
    ensures
        r == sum_spec(widths@),
{
    let mut sum: u16 = 0;
    let mut i: usize = 0;
    while i < widths.len()
        invariant
            i <= widths@.len(),
            sum_spec(widths@) <= u16::MAX,
            sum == sum_spec(widths@.take(i as int)),
        decreases widths@.len() - i,
    {
        proof {
            lemma_sum_prefix(widths@, i + 1);
            assert(widths@.take(i + 1).drop_last() =~= widths@.take(i as int));
        }
        sum = sum + widths[i];
        i = i + 1;
    }
    proof {
        assert(widths@.take(i as int) =~= widths@);
    }
    sum
}

/// The number of columns that widths are spread over.
pub open spec fn spread_columns(columns: nat) -> nat {
    if columns > u16::MAX {
        u16::MAX as nat
    } else {
        columns
    }
}

/// The share of column `i` of `columns` when a width is spread evenly; the first ones
/// get what is left over.
pub open spec fn share(total: u16, columns: nat, i: int) -> u16 {
    (total as int / columns as int + (if i < total as int % columns as int {
        1int
    } else {
        0
    })) as u16
}

/// A width spread evenly.
pub open spec fn spread_spec(total: u16, columns: nat) -> Seq<u16> {
    Seq::new(spread_columns(columns), |i: int| share(total, spread_columns(columns), i))
}

/// A share is never more than the whole.
proof fn lemma_share(total: u16, columns: nat, i: int)
    requires
        0 < columns,
        0 <= i < columns,
    ensures
        0 <= total as int / columns as int <= total,
        0 <= total as int % columns as int <= total,
        share(total, columns, i) == total as int / columns as int + (if i < total as int
            % columns as int {
            1int
        } else {
            0
        }),
        share(total, columns, i) <= total,
{
    let t = total as int;
    let n = columns as int;
    let q = t / n;
    let m = t % n;
    vstd::arithmetic::div_mod::lemma_fundamental_div_mod(t, n);
    vstd::arithmetic::div_mod::lemma_mod_bound(t, n);
    vstd::arithmetic::div_mod::lemma_div_pos_is_pos(t, n);
    assert(q + m <= n * q + m) by (nonlinear_arith)
        requires
            q >= 0,
            n >= 1,
    ;
}

/// Spreads a width evenly over columns.
pub fn spread_width(total: u16, columns: usize) -> (r: Vec<u16>)
    ensures
        r@ == spread_spec(total, columns as nat),
{
    let count: u16 = if columns > u16::MAX as usize {
        u16::MAX
    } else {
        columns as u16
    };
    let mut widths: Vec<u16> = Vec::new();
    if count == 0 {
        proof {
            assert(widths@ =~= spread_spec(total, columns as nat));
        }
        return widths;
    }
    let base: u16 = total / count;
    let remainder: u16 = total % count;
    let mut i: u16 = 0;
    while i < count
        invariant
            count > 0,
            count == spread_columns(columns as nat),
            base == total as int / count as int,
            remainder == total as int % count as int,
            i <= count,
            widths@ == spread_spec(total, columns as nat).take(i as int),
        decreases count - i,
    {
        proof {
            lemma_share(total, count as nat, i as int);
        }
        let extra: u16 = if i < remainder {
            1
        } else {
            0
        };
        widths.push(base + extra);
        proof {
            assert(spread_spec(total, columns as nat).take(i + 1) =~= spread_spec(
                total,
                columns as nat,
            ).take(i as int).push(share(total, count as nat, i as int)));
        }
        i = i + 1;
    }
    proof {
        assert(widths@ =~= spread_spec(total, columns as nat));
    }
    widths
}

/// The sum of the first shares.
proof fn lemma_shares(total: u16, columns: nat, i: int)
    requires
        0 < columns <= u16::MAX,
        0 <= i <= columns,
    ensures
        sum_spec(spread_spec(total, columns).take(i)) == i * (total as int / columns as int) + (if i
            < total as int % columns as int {
            i
        } else {
            total as int % columns as int
        }),
    decreases i,
{
    let s = spread_spec(total, columns);
    if i == 0 {
        vstd::arithmetic::div_mod::lemma_mod_bound(total as int, columns as int);
    } else {
        lemma_shares(total, columns, i - 1);
        lemma_share(total, columns, i - 1);
        assert(s.take(i).drop_last() =~= s.take(i - 1));
        assert(s.take(i).last() == share(total, columns, i - 1));
        let q = total as int / columns as int;
        assert(i * q == (i - 1) * q + q) by (nonlinear_arith);
    }
}

/// Spreading a width uses all of it, and no two columns differ by more than one cell.
pub proof fn law_spread_uses_the_width(total: u16, columns: nat)
    requires
        0 < columns <= u16::MAX,
    ensures
        spread_spec(total, columns).len() == columns,
        sum_spec(spread_spec(total, columns)) == total,
        forall|i: int, j: int|
            0 <= i < columns && 0 <= j < columns ==> #[trigger] spread_spec(total, columns)[i] <= (
            #[trigger] spread_spec(total, columns)[j]) + 1,
{
    let s = spread_spec(total, columns);
    lemma_shares(total, columns, columns as int);
    assert(s.take(columns as int) =~= s);
    vstd::arithmetic::div_mod::lemma_fundamental_div_mod(total as int, columns as int);
    vstd::arithmetic::div_mod::lemma_mod_bound(total as int, columns as int);
    assert forall|i: int, j: int| 0 <= i < columns && 0 <= j < columns implies #[trigger] s[i] <= (
    #[trigger] s[j]) + 1 by {
        lemma_share(total, columns, i);
        lemma_share(total, columns, j);
    }
}

/// One pass over the columns from `i` on that takes a cell from each that is wider
/// than its minimum, until the overflow is gone.
pub open spec fn shrink_pass(widths: Seq<u16>, minimums: Seq<u16>, i: int, overflow: int) -> (
    Seq<u16>,
    int,
)
    decreases widths.len() - i,
{
    if i < 0 || i >= widths.len() || i >= minimums.len() || overflow <= 0 {
        (widths, overflow)
    } else if widths[i] > minimums[i] {
        shrink_pass(widths.update(i, (widths[i] - 1) as u16), minimums, i + 1, overflow - 1)
    } else {
        shrink_pass(widths, minimums, i + 1, overflow)
    }
}

/// A pass takes from the sum what it takes from the overflow.
pub proof fn lemma_shrink_pass(widths: Seq<u16>, minimums: Seq<u16>, i: int, overflow: int)
    requires
        0 <= i,
        0 <= overflow,
    ensures
        ({
            let (w, o) = shrink_pass(widths, minimums, i, overflow);
            &&& 0 <= o <= overflow
            &&& w.len() == widths.len()
            &&& sum_spec(w) - o == sum_spec(widths) - overflow
        }),
    decreases widths.len() - i,
{
    if i < widths.len() && i < minimums.len() && overflow > 0 {
        if widths[i] > minimums[i] {
            let next = (widths[i] - 1) as u16;
            lemma_sum_update(widths, i, next);
            lemma_shrink_pass(widths.update(i, next), minimums, i + 1, overflow - 1);
        } else {
            lemma_shrink_pass(widths, minimums, i + 1, overflow);
        }
    }
}

/// Passes until the overflow is gone or no column can give a cell.
pub open spec fn shrink_passes(widths: Seq<u16>, minimums: Seq<u16>, overflow: int) -> (
    Seq<u16>,
    int,
)
    decreases overflow,
{
    let (w, o) = shrink_pass(widths, minimums, 0, overflow);
    if overflow <= 0 {
        (widths, overflow)
    } else if o < 0 || o >= overflow {
        (w, overflow)
    } else {
        shrink_passes(w, minimums, o)
    }
}

/// The passes take from the sum what they take from the overflow.
pub proof fn lemma_shrink_passes(widths: Seq<u16>, minimums: Seq<u16>, overflow: int)
    requires
        0 <= overflow,
    ensures
        ({
            let (w, o) = shrink_passes(widths, minimums, overflow);
            &&& 0 <= o <= overflow
            &&& w.len() == widths.len()
            &&& sum_spec(w) - o == sum_spec(widths) - overflow
        }),
    decreases overflow,
{
    lemma_shrink_pass(widths, minimums, 0, overflow);
    let (w, o) = shrink_pass(widths, minimums, 0, overflow);
    if overflow > 0 && o < overflow {
        lemma_shrink_passes(w, minimums, o);
    }
}

/// Widths made to fit a total: cell by cell down to the minimums, and evenly where
/// even these are too wide.
pub open spec fn fitted_spec(widths: Seq<u16>, minimums: Seq<u16>, total: u16) -> Seq<u16> {
    if sum_spec(widths) <= total {
        widths
    } else {
        let (w, o) = shrink_passes(widths, minimums, sum_spec(widths) - total);
        if o > 0 {
            let even = spread_spec(total, widths.len());
            Seq::new(
                widths.len(),
                |i: int|
                    if i < even.len() {
                        even[i]
                    } else {
                        w[i]
                    },
            )
        } else {
            w
        }
    }
}

/// One pass that takes a cell from each column that is wider than its minimum.
fn shrink_once(widths: &mut Vec<u16>, minimums: &Vec<u16>, overflow: u16) -> (r: u16)
    ensures
        (final(widths)@, r as int) == shrink_pass(old(widths)@, minimums@, 0, overflow as int),
        r <= overflow,
{
    let ghost start = widths@;
    let mut left: u16 = overflow;
    let mut i: usize = 0;
    while i < widths.len() && i < minimums.len() && left > 0
        invariant
            i <= widths@.len(),
            widths@.len() == start.len(),
            left <= overflow,
            shrink_pass(start, minimums@, 0, overflow as int) == shrink_pass(
                widths@,
                minimums@,
                i as int,
                left as int,
            ),
        decreases widths@.len() - i,
    {
        if widths[i] > minimums[i] {
            let next: u16 = widths[i] - 1;
            widths.set(i, next);
            left = left - 1;
        }
        i = i + 1;
    }
    left
}

/// Makes widths fit a total. Cells are trimmed one at a time across columns so that
/// no single column takes the whole penalty unless the others have already reached
/// their minimums.
pub fn shrink_widths_to_fit(widths: &mut Vec<u16>, minimums: Vec<u16>, total: u16)
    requires
        sum_spec(old(widths)@) <= u16::MAX,
    ensures
        final(widths)@ == fitted_spec(old(widths)@, minimums@, total),
{
    let ghost start = widths@;
    let current: u16 = sum_widths(widths);
    if current <= total {
        return;
    }
    let mut overflow: u16 = current - total;
    let mut moving = true;
    while overflow > 0 && moving
        invariant
            widths@.len() == start.len(),
            moving ==> shrink_passes(start, minimums@, sum_spec(start) - total) == shrink_passes(
                widths@,
                minimums@,
                overflow as int,
            ),
            !moving ==> overflow > 0 && shrink_passes(start, minimums@, sum_spec(start) - total)
                == (widths@, overflow as int),
        decreases overflow, (if moving {
            1int
        } else {
            0int
        }),
    {
        proof {
            lemma_shrink_pass(widths@, minimums@, 0, overflow as int);
        }
        let left: u16 = shrink_once(widths, &minimums, overflow);
        if left == overflow {
            moving = false;
        }
        overflow = left;
    }
    if overflow > 0 {
        let ghost shrunk = widths@;
        let even = spread_width(total, widths.len());
        let mut i: usize = 0;
        while i < widths.len() && i < even.len()
            invariant
                i <= widths@.len(),
                i <= even@.len(),
                widths@.len() == shrunk.len(),
                forall|k: int| 0 <= k < i ==> widths@[k] == even@[k],
                forall|k: int| i <= k < widths@.len() ==> widths@[k] == shrunk[k],
            decreases widths@.len() - i,
        {
            let width: u16 = even[i];
            widths.set(i, width);
            i = i + 1;
        }
        proof {
            assert(widths@ =~= fitted_spec(start, minimums@, total));
        }
    }
}

/// Widths that are made to fit add up to what they did, or to the total where that is
/// less.
pub proof fn law_fitted_widths_fit(widths: Seq<u16>, minimums: Seq<u16>, total: u16)
    requires
        widths.len() <= u16::MAX,
    ensures
        fitted_spec(widths, minimums, total).len() == widths.len(),
        sum_spec(fitted_spec(widths, minimums, total)) == (if sum_spec(widths) <= total {
            sum_spec(widths)
        } else {
            total as int
        }),
{
    if sum_spec(widths) > total {
        let overflow = sum_spec(widths) - total;
        lemma_shrink_passes(widths, minimums, overflow);
        let (w, o) = shrink_passes(widths, minimums, overflow);
        if o > 0 {
            law_spread_uses_the_width(total, widths.len());
            assert(fitted_spec(widths, minimums, total) =~= spread_spec(total, widths.len()));
        }
    }
}

/// The cells between so many columns.
pub open spec fn spacing_spec(column_count: nat) -> u16 {
    if column_count == 0 {
        0
    } else if (column_count - 1) * TABLE_COLUMN_SPACING > u16::MAX {
        u16::MAX
    } else {
        ((column_count - 1) * TABLE_COLUMN_SPACING) as u16
    }
}

/// Counts the cells between so many columns.
pub fn table_spacing_width(column_count: usize) -> (r: u16)
    ensures
        r == spacing_spec(column_count as nat),
{
    if column_count == 0 {
        0
    } else if column_count - 1 > (u16::MAX / TABLE_COLUMN_SPACING) as usize {
        u16::MAX
    } else {
        (column_count - 1) as u16 * TABLE_COLUMN_SPACING
    }
}

} // verus!
