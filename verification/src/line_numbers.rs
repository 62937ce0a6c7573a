//! Draws the numbers of the lines.
use crate::style::Style;
use crate::surface::{printed_cells, CellView, Cells, Rect, Surface};
use crate::text::{align_right, decimal, lemma_decimal_is_printable, right_aligned, to_decimal};
use vstd::prelude::*;

verus! {

/// The number of lines from `first` up to `last`.
pub open spec fn line_count(first: usize, last: usize) -> nat {
    if first < last {
        (last - first) as nat
    } else {
        0
    }
}

/// `cells` with the numbers of `count` lines drawn in the first five columns, from the line of
/// index `first` in the top row on. Lines are numbered from 1.
pub open spec fn numbered_cells(
    cells: Cells,
    area: Rect,
    first: nat,
    count: nat,
    style: Style,
) -> Cells
    decreases count,
{
    if count == 0 {
        cells
    } else {
        printed_cells(
            numbered_cells(cells, area, first, (count - 1) as nat, style),
            area,
            0,
            count - 1,
            right_aligned(decimal(first + count), 5),
            5,
            style,
        )
    }
}

/// Line numbers change no cell right of the first five columns or below their rows, and what they
/// make of a cell does not depend on the other cells.
pub proof fn lemma_numbered_cells(
    cells: Cells,
    other: Cells,
    area: Rect,
    first: nat,
    count: nat,
    style: Style,
)
    ensures
        numbered_cells(cells, area, first, count, style).dom() == cells.dom(),
        forall|p: (int, int)|
            #![trigger numbered_cells(cells, area, first, count, style)[p]]
            cells.dom().contains(p) && (p.0 >= 5 || p.1 >= count) ==> numbered_cells(
                cells,
                area,
                first,
                count,
                style,
            )[p] == cells[p],
        forall|p: (int, int)|
            #![trigger numbered_cells(cells, area, first, count, style)[p]]
            cells.dom().contains(p) && other.dom().contains(p) && cells[p] == other[p]
                ==> numbered_cells(cells, area, first, count, style)[p] == numbered_cells(
                other,
                area,
                first,
                count,
                style,
            )[p],
    decreases count,
{
    if count > 0 {
        let before = (count - 1) as nat;
        lemma_numbered_cells(cells, other, area, first, before, style);
        lemma_numbered_cells(other, cells, area, first, before, style);
        lemma_decimal_is_printable(first + count, 5);
    }
}

/// The number of each line is seen in its row: the number itself at the right edge of the first
/// five columns, and of a longer one its first five digits.
pub proof fn lemma_line_number_is_seen(
    cells: Cells,
    area: Rect,
    first: nat,
    count: nat,
    style: Style,
    x: int,
    y: int,
)
    requires
        0 <= x < 5,
        0 <= y < count,
        area.x == 0,
        x < area.width,
        cells.dom().contains((x, y)),
    ensures
        numbered_cells(cells, area, first, count, style)[(x, y)] == (CellView {
            symbol: seq![right_aligned(decimal(first + y as nat + 1), 5)[x]],
            ..cells[(x, y)].styled(style)
        }),
    decreases count,
{
    let before = (count - 1) as nat;
    lemma_decimal_is_printable(first + count, 5);
    lemma_numbered_cells(cells, cells, area, first, before, style);
    if y < before {
        lemma_line_number_is_seen(cells, area, first, before, style, x, y);
    } else {
    }
}

/// Draws the numbers of the lines from `first` up to `last`.
pub(crate) fn draw_line_numbers(surface: &mut Surface, first: usize, last: usize, style: Style)
    requires
        old(surface).wf(),
        old(surface).area().x == 0,
        old(surface).area().y == 0,
        last - first <= old(surface).area().height,
    ensures
        final(surface).wf(),
        final(surface).area() == old(surface).area(),
        final(surface)@ == numbered_cells(
            old(surface)@,
            old(surface).area(),
            first as nat,
            line_count(first, last),
            style,
        ),
{
    let ghost cells = surface@;
    let ghost area = surface.area();
    let mut line: usize = first;
    let mut i: u16 = 0;
    while line < last
        invariant
            line == first + i,
            first <= last ==> line <= last,
            first > last ==> i == 0,
            surface.wf(),
            surface.area() == area,
            area.x == 0,
            area.y == 0,
            last - first <= area.height,
            surface@ == numbered_cells(cells, area, first as nat, i as nat, style),
        decreases last - line,
    {
        let number = to_decimal(line as u64 + 1);
        let label = align_right(number.as_str(), 5);
        surface.set_stringn(0, i, label.as_str(), 5, style);
        line = line + 1;
        i = i + 1;
    }
}

} // verus!
