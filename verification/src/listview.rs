//! Arithmetic of the scrolling lists: which items are drawn, where a dragged
//! queue entry leaves its gap, how the album grid is laid out, and the
//! position line above the queue.
use vstd::prelude::*;

use crate::text::push_char;
use crate::timefmt::{decimal, decimal_string};

verus! {

/// The number of rows drawn for a list `height` pixels high: the rows that
/// fit, plus `buffer` spare rows.
pub fn rows_in_view(height: usize, row_height: usize, buffer: usize) -> (r: usize)
    requires
        row_height > 0,
        height / row_height + buffer <= usize::MAX,
    ensures
        r == height / row_height + buffer,
{
    height / row_height + buffer
}

/// The end (exclusive) of the drawn part of a list of `len` items that is
/// drawn from item `start` over `rows` rows of `per_row` items: never past
/// the end of the list.
pub fn window_end(start: usize, rows: usize, per_row: usize, len: usize) -> (r: usize)
    requires
        start + rows * per_row <= usize::MAX,
    ensures
        r == (if start + rows * per_row < len { start + rows * per_row } else { len as int }),
        r <= len,
        start <= len ==> start <= r,
{
    let end = start + rows * per_row;
    if end < len {
        end
    } else {
        len
    }
}

/// The first row shown when a list is scrolled `scroll_top` pixels down.
pub fn first_row(scroll_top: usize, row_height: usize) -> (r: usize)
    requires
        row_height > 0,
    ensures
        r == scroll_top / row_height,
        r * row_height <= scroll_top < (r + 1) * row_height,
{
    let r = scroll_top / row_height;
    proof {
        assert(r * row_height <= scroll_top < (r + 1) * row_height) by (nonlinear_arith)
            requires
                r == scroll_top / row_height,
                row_height > 0,
        ;
    }
    r
}

/// The row before `row`, or row 0 itself.
pub open spec fn row_before(row: int) -> int {
    if row == 0 {
        0
    } else {
        row - 1
    }
}

/// The first item drawn in a grid of `per_row` items per row whose first
/// visible row is `row`: drawing starts one row early.
pub fn grid_start(row: usize, per_row: usize) -> (r: usize)
    requires
        row_before(row as int) * per_row <= usize::MAX,
    ensures
        r == row_before(row as int) * per_row,
{
    let before: usize = if row == 0 { 0 } else { row - 1 };
    before * per_row
}

/// The number of columns of the album grid in a list `width` pixels wide:
/// one per 150 pixels, and never fewer than three.
pub fn grid_columns(width: usize) -> (r: usize)
    ensures
        r == (if width / 150 > 3 { width / 150 } else { 3 }),
        r >= 3,
{
    let fit = width / 150;
    if fit > 3 {
        fit
    } else {
        3
    }
}

/// The height of a row of the album grid: the width of a cover (the list's
/// width less a 10 pixel margin, shared among the columns, less a 5 pixel
/// gap) plus 48 pixels for its caption.
pub fn grid_row_height(width: usize, columns: usize) -> (r: usize)
    requires
        columns > 0,
        width >= 10,
        (width - 10) / (columns as int) >= 5,
        (width - 10) / (columns as int) - 5 + 48 <= usize::MAX,
    ensures
        r == (width - 10) / (columns as int) - 5 + 48,
{
    let item_width = (width - 10) / columns - 5;
    item_width + 48
}

/// While the queue entry at `dragging` is dragged over row `hovering`, a gap
/// is drawn before the entry at `idx`: before the hovered entry when dragging
/// upwards, before the entry after it when dragging downwards.
pub fn gap_before(dragging: usize, hovering: usize, idx: usize) -> (r: bool)
    ensures
        r == (dragging > idx && hovering == idx || dragging < idx && hovering == row_before(idx as int)),
{
    let before: usize = if idx == 0 { 0 } else { idx - 1 };
    dragging > idx && hovering == idx || dragging < idx && hovering == before
}

/// The row at which the queue entry `idx` is drawn while `dragging` (if any)
/// is dragged over row `hovering`: `None` for the dragged entry itself, which
/// follows the pointer; the row before for entries up to the hovered row,
/// which move up to close the dragged entry's place; otherwise its own row.
pub fn entry_row(idx: usize, dragging: Option<usize>, hovering: usize) -> (r: Option<usize>)
    ensures
        r == (match dragging {
            Some(d) => if d == idx {
                None
            } else if hovering >= idx {
                Some(row_before(idx as int) as usize)
            } else {
                Some(idx)
            },
            None => Some(idx),
        }),
{
    match dragging {
        Some(d) => {
            if d == idx {
                None
            } else if hovering >= idx {
                let before: usize = if idx == 0 { 0 } else { idx - 1 };
                Some(before)
            } else {
                Some(idx)
            }
        },
        None => Some(idx),
    }
}

/// The text `Track: `.
pub open spec fn track_prefix() -> Seq<char> {
    seq!['T', 'r', 'a', 'c', 'k', ':', ' ']
}

/// The position line above a queue: `Track: ` then the current entry counted
/// from one, a slash and the number of entries.
pub open spec fn position_text(current: nat, len: nat) -> Seq<char> {
    track_prefix() + decimal(current + 1) + seq!['/'] + decimal(len)
}

/// The position line above a queue whose current entry is `current` (counted
/// from zero) of `len` entries.
pub fn queue_position(current: u64, len: u64) -> (r: String)
    requires
        current < u64::MAX,
    ensures
        r@ == position_text(current as nat, len as nat),
{
    let mut s = String::from_str("Track: ");
    proof {
        reveal_strlit("Track: ");
        assert(s@ =~= track_prefix());
    }
    let shown = decimal_string(current + 1);
    s.append(shown.as_str());
    push_char(&mut s, '/');
    let total = decimal_string(len);
    s.append(total.as_str());
    assert(s@ =~= position_text(current as nat, len as nat));
    s
}

} // verus!
