//! Draws the prompt and its completions.
use crate::cursor::low_bits;
use crate::prompt::{
    grid_columns, grid_rows, lemma_grid_is_tight, lemma_slots_are_apart, lemma_slots_fill_columns,
    slot_x, slot_y, Prompt, BASE_WIDTH,
};
use crate::style::{CellColor, Style};
use crate::surface::{
    columns, columns_of, graphemes_of, is_grapheme, is_printable_ascii, least,
    lemma_grapheme_is_printed, lemma_graphemes_stay, lemma_one_grapheme, lemma_printed_cells,
    lemma_reach_fits, lemma_reach_is_bounded, printed_cells, reach, same_outside_rows, screen,
    shows_graphemes, styled_cells, CellView, Cells, Rect, Surface,
};
use crate::text::{blanks, spaces};
use vstd::prelude::*;

verus! {

/// `cells` with the rows from `top` up to `bottom` overwritten with spaces.
pub open spec fn cleared_cells(cells: Cells, top: int, bottom: int, style: Style) -> Cells {
    cells.map_entries(
        |p: (int, int), cell: CellView|
            if top <= p.1 < bottom {
                CellView { symbol: seq![' '], ..cell.styled(style) }
            } else {
                cell
            },
    )
}

/// The style of completion `i`: the picked one has a background of its own.
pub open spec fn completion_style(picked: Option<usize>, i: int, text_color: Style) -> Style {
    if picked is Some && picked->0 == i {
        Style::plain().with_bg(CellColor::Rgb(104, 60, 232))
    } else {
        text_color
    }
}

/// `cells` with the first `n` completions drawn in a grid of `rows` rows that starts in row `top`.
/// Those beyond the column after the last one that fits are left out.
pub open spec fn listed_cells(
    cells: Cells,
    size: (u16, u16),
    text_color: Style,
    prompt: Prompt,
    rows: int,
    n: nat,
) -> Cells
    decreases n,
{
    if n == 0 {
        cells
    } else {
        let before = listed_cells(cells, size, text_color, prompt, rows, (n - 1) as nat);
        if (n - 1) / rows > grid_columns(size.0) {
            before
        } else {
            printed_cells(
                before,
                screen(size),
                slot_x(n - 1, rows),
                size.1 - rows - 2 + slot_y(n - 1, rows),
                prompt.completion@[n - 1]@,
                BASE_WIDTH - 1,
                completion_style(prompt.completion_selection_index, n - 1, text_color),
            )
        }
    }
}

/// `cells` with the rows above the status line made ready for the completions: overwritten with
/// spaces, in the style of the status line.
pub open spec fn panel_cells(
    cells: Cells,
    size: (u16, u16),
    text_color: Style,
    statusline: Style,
    rows: int,
) -> Cells {
    styled_cells(
        cleared_cells(cells, size.1 - rows - 2, size.1 - 2, text_color),
        Rect { x: 0, y: (size.1 - rows - 2) as u16, width: size.0, height: rows as u16 },
        statusline,
    )
}

/// `cells` with the completions of the prompt in the rows above the status line.
pub open spec fn completion_cells(
    cells: Cells,
    size: (u16, u16),
    text_color: Style,
    statusline: Style,
    prompt: Prompt,
) -> Cells {
    let rows = grid_rows(prompt.completion@.len(), size.0);
    listed_cells(
        panel_cells(cells, size, text_color, statusline, rows),
        size,
        text_color,
        prompt,
        rows,
        prompt.completion@.len(),
    )
}

/// `cells` with the prompt in the last row, and above the status line the completions, if there are
/// any.
pub open spec fn asked_cells(
    cells: Cells,
    size: (u16, u16),
    text_color: Style,
    statusline: Style,
    prompt: Prompt,
) -> Cells {
    let listed = if prompt.completion@.len() > 0 {
        completion_cells(cells, size, text_color, statusline, prompt)
    } else {
        cells
    };
    printed_cells(
        listed,
        screen(size),
        1,
        size.1 - 1,
        prompt.prompt@,
        usize::MAX as int,
        text_color,
    )
}

/// `cells` with the prompt and its input in the last row, and above the status line the
/// completions, if there are any.
pub open spec fn prompt_cells(
    cells: Cells,
    size: (u16, u16),
    text_color: Style,
    statusline: Style,
    prompt: Prompt,
) -> Cells {
    printed_cells(
        asked_cells(cells, size, text_color, statusline, prompt),
        screen(size),
        2,
        size.1 - 1,
        prompt.line@,
        usize::MAX as int,
        text_color,
    )
}

/// The number of rows that the completions of a prompt take up.
pub open spec fn completion_height(size: (u16, u16), prompt: Prompt) -> int {
    if prompt.completion@.len() > 0 {
        grid_rows(prompt.completion@.len(), size.0)
    } else {
        0
    }
}

/// There is room on the screen for the prompt and its completions.
pub open spec fn has_room(size: (u16, u16), prompt: Prompt) -> bool {
    &&& size.1 >= 1
    &&& prompt.completion@.len() > 0 ==> {
        &&& size.0 >= BASE_WIDTH
        &&& 0 < prompt.completion@.len() % 0x1_0000
        &&& prompt.completion@.len() % 0x1_0000 + grid_columns(size.0) <= u16::MAX
        &&& completion_height(size, prompt) + 2 <= size.1
    }
}

/// There is room on the screen for the prompt and its completions.
pub fn prompt_has_room(size: (u16, u16), prompt: &Prompt) -> (room: bool)
    ensures
        room == has_room(size, *prompt),
{
    if size.1 < 1 {
        return false;
    }
    let count: usize = prompt.completion.len();
    if count == 0 {
        return true;
    }
    if size.0 < BASE_WIDTH {
        return false;
    }
    let shown: u32 = low_bits(count) as u32;
    let columns: u32 = (size.0 / BASE_WIDTH) as u32;
    if shown == 0 || shown + columns > 0xffff {
        return false;
    }
    (shown + columns - 1) / columns + 2 <= size.1 as u32
}

/// Overwrites `rows` rows above the last two with spaces.
pub(crate) fn clear_rows(surface: &mut Surface, size: (u16, u16), rows: u16, style: Style)
    requires
        old(surface).wf(),
        old(surface).area() == screen(size),
        rows + 2 <= size.1,
        size.1 < u16::MAX,
    ensures
        final(surface).wf(),
        final(surface).area() == old(surface).area(),
        final(surface)@ == cleared_cells(old(surface)@, size.1 - rows - 2, size.1 - 2, style),
{
    let ghost cells = surface@;
    let ghost area = surface.area();
    let blank = spaces(size.0 as usize);
    let mut i: u16 = 3;
    while i < rows + 3
        invariant
            3 <= i <= rows + 3,
            rows + 2 <= size.1,
            size.1 < u16::MAX,
            blank@ == blanks(size.0 as nat),
            surface.wf(),
            surface.area() == area,
            area == screen(size),
            surface@ =~= cleared_cells(cells, size.1 - i + 1, size.1 - 2, style),
        decreases rows + 3 - i,
    {
        proof {
            surface.lemma_cells_fill_area();
        }
        surface.set_string(0, size.1 - i, blank.as_str(), style);
        i = i + 1;
    }
}

/// Completions beyond the last column change nothing.
proof fn lemma_listed_beyond(
    cells: Cells,
    size: (u16, u16),
    text_color: Style,
    prompt: Prompt,
    rows: int,
    n: nat,
    m: nat,
)
    requires
        rows > 0,
        n <= m,
        n as int / rows > grid_columns(size.0),
    ensures
        listed_cells(cells, size, text_color, prompt, rows, m) == listed_cells(
            cells,
            size,
            text_color,
            prompt,
            rows,
            n,
        ),
    decreases m,
{
    if n < m {
        lemma_listed_beyond(cells, size, text_color, prompt, rows, n, (m - 1) as nat);
        vstd::arithmetic::div_mod::lemma_div_is_ordered(n as int, m - 1, rows);
    }
}

/// The cell at `p` is in the place of completion `i`, in a grid of `rows` rows from row `top` on.
pub open spec fn in_slot(p: (int, int), i: int, rows: int, top: int) -> bool {
    p.1 == top + slot_y(i, rows) && slot_x(i, rows) <= p.0 < slot_x(i, rows) + BASE_WIDTH - 1
}

/// The cell at `p` is one of those that the text of completion `i` takes up in its place.
pub open spec fn in_text(
    p: (int, int),
    size: (u16, u16),
    prompt: Prompt,
    i: int,
    rows: int,
) -> bool {
    in_slot(p, i, rows, size.1 - rows - 2) && p.0 < slot_x(i, rows) + reach(
        prompt.completion@[i]@,
        least(BASE_WIDTH - 1, size.0 - slot_x(i, rows)),
    )
}

/// None of the first `n` completions takes up the cell at `p`.
pub open spec fn is_free(
    size: (u16, u16),
    prompt: Prompt,
    rows: int,
    n: nat,
    p: (int, int),
) -> bool {
    forall|i: int|
        0 <= i < n && i / rows <= grid_columns(size.0) ==> !#[trigger] in_text(
            p,
            size,
            prompt,
            i,
            rows,
        )
}

/// The first `n` completions, as far as there are columns for them, are seen above the last row of
/// `listed`, in a grid of `rows` rows over `cells`. The place of each is as if it were the only one,
/// and the cells that no completion takes up are those of `cells`.
pub open spec fn shows_completions(
    cells: Cells,
    listed: Cells,
    size: (u16, u16),
    text_color: Style,
    prompt: Prompt,
    rows: int,
    n: nat,
) -> bool {
    &&& listed.dom() == cells.dom()
    &&& forall|p: (int, int), i: int|
        #![trigger listed[p], in_slot(p, i, rows, size.1 - rows - 2)]
        {
            &&& cells.dom().contains(p)
            &&& p.1 < size.1 - 1
            &&& 0 <= i < n
            &&& i / rows <= grid_columns(size.0)
            &&& in_slot(p, i, rows, size.1 - rows - 2)
        } ==> listed[p] == printed_cells(
            cells,
            screen(size),
            slot_x(i, rows),
            size.1 - rows - 2 + slot_y(i, rows),
            prompt.completion@[i]@,
            BASE_WIDTH - 1,
            completion_style(prompt.completion_selection_index, i, text_color),
        )[p]
    &&& forall|p: (int, int)|
        #![trigger listed[p]]
        cells.dom().contains(p) && p.1 < size.1 - 1 && is_free(size, prompt, rows, n, p)
            ==> listed[p] == cells[p]
}

/// Drawing one more completion.
proof fn lemma_completion_is_added(
    cells: Cells,
    earlier: Cells,
    later: Cells,
    size: (u16, u16),
    text_color: Style,
    prompt: Prompt,
    rows: int,
    n: nat,
)
    requires
        rows > 0,
        n as int / rows <= grid_columns(size.0),
        shows_completions(cells, earlier, size, text_color, prompt, rows, n),
        later == printed_cells(
            earlier,
            screen(size),
            slot_x(n as int, rows),
            size.1 - rows - 2 + slot_y(n as int, rows),
            prompt.completion@[n as int]@,
            BASE_WIDTH - 1,
            completion_style(prompt.completion_selection_index, n as int, text_color),
        ),
    ensures
        shows_completions(cells, later, size, text_color, prompt, rows, n + 1),
{
    let top = size.1 - rows - 2;
    let text = prompt.completion@[n as int]@;
    lemma_printed_cells(
        earlier,
        cells,
        screen(size),
        slot_x(n as int, rows),
        top + slot_y(n as int, rows),
        text,
        BASE_WIDTH - 1,
        completion_style(prompt.completion_selection_index, n as int, text_color),
    );
    lemma_reach_fits(text, least(BASE_WIDTH - 1, size.0 - slot_x(n as int, rows)));
    assert forall|p: (int, int), i: int|
        #![trigger later[p], in_slot(p, i, rows, top)]
        {
            &&& cells.dom().contains(p)
            &&& p.1 < size.1 - 1
            &&& 0 <= i < n + 1
            &&& i / rows <= grid_columns(size.0)
            &&& in_slot(p, i, rows, top)
        } implies later[p] == printed_cells(
        cells,
        screen(size),
        slot_x(i, rows),
        top + slot_y(i, rows),
        prompt.completion@[i]@,
        BASE_WIDTH - 1,
        completion_style(prompt.completion_selection_index, i, text_color),
    )[p] by {
        if i < n {
            lemma_slots_are_apart(rows, i, n as int);
            assert(earlier[p] == later[p]);
        } else {
            assert forall|j: int|
                0 <= j < n && j / rows <= grid_columns(size.0) implies !#[trigger] in_text(
                p,
                size,
                prompt,
                j,
                rows,
            ) by {
                lemma_slots_are_apart(rows, j, n as int);
            }
            assert(is_free(size, prompt, rows, n, p));
            assert(earlier[p] == cells[p]);
        }
    }
    assert forall|p: (int, int)|
        #![trigger later[p]]
        cells.dom().contains(p) && p.1 < size.1 - 1 && is_free(
            size,
            prompt,
            rows,
            n + 1,
            p,
        ) implies later[p] == cells[p] by {
        assert(!in_text(p, size, prompt, n as int, rows));
        assert(is_free(size, prompt, rows, n, p));
        assert(earlier[p] == cells[p]);
    }
}

/// Completions beyond the last column are not missed.
proof fn lemma_completions_end(
    cells: Cells,
    listed: Cells,
    size: (u16, u16),
    text_color: Style,
    prompt: Prompt,
    rows: int,
    n: nat,
    m: nat,
)
    requires
        rows > 0,
        n <= m,
        n as int / rows > grid_columns(size.0),
        shows_completions(cells, listed, size, text_color, prompt, rows, n),
    ensures
        shows_completions(cells, listed, size, text_color, prompt, rows, m),
{
    assert forall|i: int| n <= i implies #[trigger] (i / rows) > grid_columns(size.0) by {
        vstd::arithmetic::div_mod::lemma_div_is_ordered(n as int, i, rows);
    }
    assert forall|p: (int, int)| #[trigger]
        is_free(size, prompt, rows, m, p) implies is_free(size, prompt, rows, n, p) by {
        assert forall|i: int|
            0 <= i < n && i / rows <= grid_columns(size.0) implies !#[trigger] in_text(
            p,
            size,
            prompt,
            i,
            rows,
        ) by {}
    }
}

/// Every completion is shown in its place, grapheme by grapheme, as far as it fits in one column
/// less than `BASE_WIDTH` and before the right edge, and the picked one in its own style, whatever
/// the other completions are.
pub proof fn lemma_completion_is_shown(
    cells: Cells,
    listed: Cells,
    size: (u16, u16),
    text_color: Style,
    prompt: Prompt,
    rows: int,
    i: int,
)
    requires
        0 < rows,
        shows_completions(cells, listed, size, text_color, prompt, rows, prompt.completion@.len()),
        0 <= i < prompt.completion@.len(),
        i / rows <= grid_columns(size.0),
    ensures
        shows_graphemes(
            cells,
            listed,
            slot_x(i, rows),
            size.1 - rows - 2 + slot_y(i, rows),
            graphemes_of(prompt.completion@[i]@),
            least(BASE_WIDTH - 1, size.0 - slot_x(i, rows)),
            completion_style(prompt.completion_selection_index, i, text_color),
        ),
{
    let (x, y) = (slot_x(i, rows), size.1 - rows - 2 + slot_y(i, rows));
    let text = prompt.completion@[i]@;
    let style = completion_style(prompt.completion_selection_index, i, text_color);
    let room = least(BASE_WIDTH - 1, size.0 - x);
    let printed = printed_cells(cells, screen(size), x, y, text, BASE_WIDTH - 1, style);
    assert(0 <= slot_y(i, rows) < rows);
    lemma_printed_cells(cells, cells, screen(size), x, y, text, BASE_WIDTH - 1, style);
    assert forall|c: int| x <= c < x + room && #[trigger] cells.dom().contains((c, y)) implies {
        &&& cells.dom().contains((c, y))
        &&& cells[(c, y)] == cells[(c, y)]
        &&& listed[(c, y)] == printed[(c, y)]
    } by {
        assert(in_slot((c, y), i, rows, size.1 - rows - 2));
    }
    lemma_graphemes_stay(cells, printed, cells, listed, x, y, graphemes_of(text), room, style);
}

/// Every completion of printable ASCII is seen in its place, one column short of `BASE_WIDTH`, and
/// the picked one in its own style, whatever the other completions are.
pub proof fn lemma_completion_is_seen(
    cells: Cells,
    listed: Cells,
    size: (u16, u16),
    text_color: Style,
    prompt: Prompt,
    rows: int,
    i: int,
    k: int,
)
    requires
        0 < rows,
        rows + 2 <= size.1,
        shows_completions(cells, listed, size, text_color, prompt, rows, prompt.completion@.len()),
        0 <= i < prompt.completion@.len(),
        i / rows <= grid_columns(size.0),
        is_printable_ascii(prompt.completion@[i]@),
        0 <= k < prompt.completion@[i]@.len(),
        k < BASE_WIDTH - 1,
        slot_x(i, rows) + k < size.0,
        cells.dom().contains((slot_x(i, rows) + k, size.1 - rows - 2 + slot_y(i, rows))),
    ensures
        ({
            let p = (slot_x(i, rows) + k, size.1 - rows - 2 + slot_y(i, rows));
            listed[p] == (CellView {
                symbol: seq![prompt.completion@[i]@[k]],
                ..cells[p].styled(
                    completion_style(prompt.completion_selection_index, i, text_color),
                )
            })
        }),
{
    let p = (slot_x(i, rows) + k, size.1 - rows - 2 + slot_y(i, rows));
    assert(0 <= slot_y(i, rows) < rows) by {
        vstd::arithmetic::div_mod::lemma_fundamental_div_mod(i, rows);
    }
    assert(in_slot(p, i, rows, size.1 - rows - 2));
    assert(listed[p] == listed[p]);
}

/// In the rows of the completions, a cell that none of them takes up is a space in the style of
/// the status line over that of the prompt.
pub proof fn lemma_panel_rest_is_blank(
    cells: Cells,
    listed: Cells,
    size: (u16, u16),
    text_color: Style,
    statusline: Style,
    prompt: Prompt,
    rows: int,
    p: (int, int),
)
    requires
        0 < rows,
        rows + 2 <= size.1,
        shows_completions(
            panel_cells(cells, size, text_color, statusline, rows),
            listed,
            size,
            text_color,
            prompt,
            rows,
            prompt.completion@.len(),
        ),
        cells.dom().contains(p),
        screen(size).covers(p),
        size.1 - rows - 2 <= p.1 < size.1 - 2,
        is_free(size, prompt, rows, prompt.completion@.len(), p),
    ensures
        listed[p] == (CellView {
            symbol: seq![' '],
            ..cells[p].styled(text_color).styled(statusline)
        }),
{
    assert(panel_cells(cells, size, text_color, statusline, rows).dom().contains(p));
    assert(listed[p] == panel_cells(cells, size, text_color, statusline, rows)[p]);
}

/// The completions that are listed are seen.
proof fn lemma_listed_are_shown(
    cells: Cells,
    size: (u16, u16),
    text_color: Style,
    prompt: Prompt,
    rows: int,
    n: nat,
)
    requires
        rows > 0,
    ensures
        shows_completions(
            cells,
            listed_cells(cells, size, text_color, prompt, rows, n),
            size,
            text_color,
            prompt,
            rows,
            n,
        ),
    decreases n,
{
    if n > 0 {
        let m = (n - 1) as nat;
        let before = listed_cells(cells, size, text_color, prompt, rows, m);
        lemma_listed_are_shown(cells, size, text_color, prompt, rows, m);
        if m as int / rows <= grid_columns(size.0) {
            lemma_completion_is_added(
                cells,
                before,
                listed_cells(cells, size, text_color, prompt, rows, n),
                size,
                text_color,
                prompt,
                rows,
                m,
            );
        } else {
            lemma_completions_end(cells, before, size, text_color, prompt, rows, m, n);
        }
    }
}

/// Where a completion stands when the prompt is drawn, and what is seen of it: they fill a grid of
/// columns that are 30 wide, as many as the screen has room for and no higher than it takes, which
/// ends above the last two rows. The one after `q` full columns and `r` more is in row `r` of column
/// `q`, one column in from its left edge, up to 29 characters of it. The picked one has a background
/// of its own, and the others are in the style of the prompt.
pub proof fn lemma_completion_stands(
    cells: Cells,
    size: (u16, u16),
    text_color: Style,
    statusline: Style,
    prompt: Prompt,
    rows: int,
    q: int,
    r: int,
    k: int,
)
    requires
        size.0 >= 30,
        forall|p: (int, int)| #[trigger] cells.dom().contains(p) <==> screen(size).covers(p),
        0 < prompt.completion@.len() <= u16::MAX,
        (rows - 1) * (size.0 as int / 30) < prompt.completion@.len() <= rows * (size.0 as int
            / 30),
        rows + 2 <= size.1,
        q >= 0,
        0 <= r < rows,
        q * rows + r < prompt.completion@.len(),
        is_printable_ascii(prompt.completion@[q * rows + r]@),
        0 <= k < prompt.completion@[q * rows + r]@.len(),
        k < 29,
    ensures
        ({
            let i = q * rows + r;
            let p = (1 + q * 30 + k, size.1 - 2 - rows + r);
            let cell = prompt_cells(cells, size, text_color, statusline, prompt)[p];
            &&& p.0 < size.0
            &&& cell.symbol == seq![prompt.completion@[i]@[k]]
            &&& prompt.completion_selection_index == Some(i as usize) ==> {
                &&& cell.bg == CellColor::Rgb(104, 60, 232)
                &&& statusline.fg matches Some(color) ==> cell.fg == color
                &&& statusline.fg is None ==> (text_color.fg matches Some(color) ==> cell.fg
                    == color)
            }
            &&& prompt.completion_selection_index != Some(i as usize) ==> {
                &&& text_color.fg matches Some(color) ==> cell.fg == color
                &&& text_color.bg matches Some(color) ==> cell.bg == color
                &&& text_color.bg is None ==> (statusline.bg matches Some(color) ==> cell.bg
                    == color)
            }
        }),
{
    let count = prompt.completion@.len();
    let columns = grid_columns(size.0);
    let i = q * rows + r;
    let p = (1 + q * 30 + k, size.1 - 2 - rows + r);
    lemma_grid_is_tight(count, size.0);
    let tight = grid_rows(count, size.0);
    assert(rows == tight) by (nonlinear_arith)
        requires
            columns >= 1,
            (rows - 1) * columns < count <= rows * columns,
            (tight - 1) * columns < count <= tight * columns,
    ;
    lemma_slots_fill_columns(rows, q, r);
    assert(q < columns) by (nonlinear_arith)
        requires
            q * rows + r < count,
            count <= rows * columns,
            r >= 0,
            rows > 0,
    ;
    assert(q * 30 + 30 <= columns * 30);
    vstd::arithmetic::div_mod::lemma_fundamental_div_mod_converse(i, rows, q, r);
    let panel = panel_cells(cells, size, text_color, statusline, rows);
    let listed = completion_cells(cells, size, text_color, statusline, prompt);
    lemma_listed_are_shown(panel, size, text_color, prompt, rows, count);
    assert(screen(size).covers(p));
    assert(panel.dom().contains(p));
    lemma_completion_is_seen(panel, listed, size, text_color, prompt, rows, i, k);
    assert(q * rows >= 0) by (nonlinear_arith)
        requires
            q >= 0,
            rows > 0,
    ;
    let asked = asked_cells(cells, size, text_color, statusline, prompt);
    lemma_printed_cells(
        listed,
        listed,
        screen(size),
        1,
        size.1 - 1,
        prompt.prompt@,
        usize::MAX as int,
        text_color,
    );
    lemma_printed_cells(
        asked,
        asked,
        screen(size),
        2,
        size.1 - 1,
        prompt.line@,
        usize::MAX as int,
        text_color,
    );
    assert(prompt_cells(cells, size, text_color, statusline, prompt)[p] == asked[p]);
    assert(asked[p] == listed[p]);
}

/// What is seen above the last row where no completion is: the rows of the completions are spaces
/// there, in the style of the status line over that of the prompt, and the other rows are as they
/// were.
pub proof fn lemma_rest_of_prompt(
    cells: Cells,
    size: (u16, u16),
    text_color: Style,
    statusline: Style,
    prompt: Prompt,
    rows: int,
    p: (int, int),
)
    requires
        size.0 >= 30,
        forall|p: (int, int)| #[trigger] cells.dom().contains(p) <==> screen(size).covers(p),
        0 < prompt.completion@.len() <= u16::MAX,
        (rows - 1) * (size.0 as int / 30) < prompt.completion@.len() <= rows * (size.0 as int
            / 30),
        rows + 2 <= size.1,
        screen(size).covers(p),
        p.1 < size.1 - 1,
        forall|i: int|
            0 <= i < prompt.completion@.len() && i % rows == p.1 - (size.1 - 2 - rows) ==> p.0 < 1
                + i / rows * 30 || p.0 >= 1 + i / rows * 30 + 29 || p.0 >= 1 + i / rows * 30
                + columns_of(graphemes_of((#[trigger] prompt.completion@[i])@)),
    ensures
        ({
            let cell = prompt_cells(cells, size, text_color, statusline, prompt)[p];
            if size.1 - 2 - rows <= p.1 < size.1 - 2 {
                cell == (CellView {
                    symbol: seq![' '],
                    ..cells[p].styled(text_color).styled(statusline)
                })
            } else {
                cell == cells[p]
            }
        }),
{
    let count = prompt.completion@.len();
    let columns = grid_columns(size.0);
    lemma_grid_is_tight(count, size.0);
    let tight = grid_rows(count, size.0);
    assert(rows == tight) by (nonlinear_arith)
        requires
            columns >= 1,
            (rows - 1) * columns < count <= rows * columns,
            (tight - 1) * columns < count <= tight * columns,
    ;
    assert(rows > 0) by (nonlinear_arith)
        requires
            rows * columns >= count,
            count > 0,
            columns >= 1,
    ;
    let panel = panel_cells(cells, size, text_color, statusline, rows);
    let listed = completion_cells(cells, size, text_color, statusline, prompt);
    let asked = asked_cells(cells, size, text_color, statusline, prompt);
    assert(panel.dom().contains(p));
    lemma_listed_are_shown(panel, size, text_color, prompt, rows, count);
    assert forall|i: int|
        0 <= i < count && i / rows <= columns implies !#[trigger] in_text(
        p,
        size,
        prompt,
        i,
        rows,
    ) by {
        lemma_reach_is_bounded(
            prompt.completion@[i]@,
            least(BASE_WIDTH - 1, size.0 - slot_x(i, rows)),
        );
        assert(slot_x(i, rows) == 1 + i / rows * 30);
        assert(slot_y(i, rows) == i % rows);
    }
    assert(is_free(size, prompt, rows, count, p));
    assert(listed[p] == panel[p]);
    lemma_printed_cells(
        listed,
        listed,
        screen(size),
        1,
        size.1 - 1,
        prompt.prompt@,
        usize::MAX as int,
        text_color,
    );
    lemma_printed_cells(
        asked,
        asked,
        screen(size),
        2,
        size.1 - 1,
        prompt.line@,
        usize::MAX as int,
        text_color,
    );
    assert(prompt_cells(cells, size, text_color, statusline, prompt)[p] == asked[p]);
    assert(asked[p] == listed[p]);
}

/// What is seen of the prompt and its input in the last row: the prompt in its second column and the
/// input from the third one on, where the prompt is a single character, whatever the completions
/// are.
pub proof fn lemma_input_stands(
    cells: Cells,
    size: (u16, u16),
    text_color: Style,
    statusline: Style,
    prompt: Prompt,
    k: int,
)
    requires
        has_room(size, prompt),
        forall|p: (int, int)| #[trigger] cells.dom().contains(p) <==> screen(size).covers(p),
        is_printable_ascii(prompt.prompt@),
        prompt.prompt@.len() == 1,
        is_printable_ascii(prompt.line@),
        0 <= k < size.0,
    ensures
        ({
            let cell = prompt_cells(cells, size, text_color, statusline, prompt)[(k, size.1 - 1)];
            let was = cells[(k, size.1 - 1)];
            if k == 1 {
                cell == (CellView { symbol: prompt.prompt@, ..was.styled(text_color) })
            } else if 2 <= k < 2 + prompt.line@.len() {
                cell == (CellView { symbol: seq![prompt.line@[k - 2]], ..was.styled(text_color) })
            } else {
                cell == was
            }
        }),
{
    let p = (k, size.1 - 1);
    let rows = grid_rows(prompt.completion@.len(), size.0);
    let asked = asked_cells(cells, size, text_color, statusline, prompt);
    assert(screen(size).covers(p));
    assert(seq![prompt.prompt@[0]] =~= prompt.prompt@);
    if prompt.completion@.len() > 0 {
        let panel = panel_cells(cells, size, text_color, statusline, rows);
        vstd::arithmetic::div_mod::lemma_div_non_zero(
            (prompt.completion@.len() % 0x1_0000) + grid_columns(size.0) - 1,
            grid_columns(size.0),
        );
        assert(panel[p] == cells[p]);
        lemma_listed_rows(panel, size, text_color, prompt, rows, prompt.completion@.len());
        assert(completion_cells(cells, size, text_color, statusline, prompt)[p] == panel[p]);
    }
}

/// What is seen of a prompt that is one grapheme and one column wide, and of any input: the prompt in
/// the second column of the last row, and the input grapheme by grapheme from the third one on, as
/// far as the screen goes.
pub proof fn lemma_any_input_stands(
    cells: Cells,
    size: (u16, u16),
    text_color: Style,
    statusline: Style,
    prompt: Prompt,
)
    requires
        has_room(size, prompt),
        size.0 >= 2,
        forall|p: (int, int)| #[trigger] cells.dom().contains(p) <==> screen(size).covers(p),
        is_grapheme(prompt.prompt@),
        columns(prompt.prompt@) == 1,
    ensures
        ({
            let asked = prompt_cells(cells, size, text_color, statusline, prompt);
            &&& asked[(1, size.1 - 1)] == (CellView {
                symbol: prompt.prompt@,
                ..cells[(1, size.1 - 1)].styled(text_color)
            })
            &&& shows_graphemes(
                cells,
                asked,
                2,
                size.1 - 1,
                graphemes_of(prompt.line@),
                size.0 - 2,
                text_color,
            )
        }),
{
    let y = size.1 - 1;
    let rows = grid_rows(prompt.completion@.len(), size.0);
    let listed = if prompt.completion@.len() > 0 {
        completion_cells(cells, size, text_color, statusline, prompt)
    } else {
        cells
    };
    assert(listed.dom() == cells.dom() && forall|c: int|
        cells.dom().contains((c, y)) ==> #[trigger] listed[(c, y)] == cells[(c, y)]) by {
        if prompt.completion@.len() > 0 {
            let panel = panel_cells(cells, size, text_color, statusline, rows);
            vstd::arithmetic::div_mod::lemma_div_non_zero(
                (prompt.completion@.len() % 0x1_0000) + grid_columns(size.0) - 1,
                grid_columns(size.0),
            );
            lemma_listed_rows(panel, size, text_color, prompt, rows, prompt.completion@.len());
            assert(panel.dom() =~= cells.dom());
            assert forall|c: int| cells.dom().contains((c, y)) implies #[trigger] listed[(c, y)]
                == cells[(c, y)] by {
                assert(panel[(c, y)] == cells[(c, y)]);
            }
        }
    }
    let asked = asked_cells(cells, size, text_color, statusline, prompt);
    let whole = prompt_cells(cells, size, text_color, statusline, prompt);
    let max = usize::MAX as int;
    assert(screen(size).covers((1, y)));
    lemma_grapheme_is_printed(listed, screen(size), 1, y, prompt.prompt@, max, text_color);
    lemma_printed_cells(listed, listed, screen(size), 1, y, prompt.prompt@, max, text_color);
    lemma_one_grapheme(prompt.prompt@);
    lemma_reach_is_bounded(prompt.prompt@, least(max, size.0 - 1));
    lemma_printed_cells(asked, asked, screen(size), 2, y, prompt.line@, max, text_color);
    assert(whole[(1, y)] == asked[(1, y)]);
    lemma_graphemes_stay(
        asked,
        whole,
        cells,
        whole,
        2,
        y,
        graphemes_of(prompt.line@),
        size.0 - 2,
        text_color,
    );
}

/// Completions change no row but theirs.
proof fn lemma_listed_rows(
    cells: Cells,
    size: (u16, u16),
    text_color: Style,
    prompt: Prompt,
    rows: int,
    n: nat,
)
    requires
        rows > 0,
    ensures
        same_outside_rows(
            cells,
            listed_cells(cells, size, text_color, prompt, rows, n),
            size.1 - rows - 2,
            size.1 - 2,
        ),
    decreases n,
{
    if n > 0 {
        let m = (n - 1) as nat;
        let before = listed_cells(cells, size, text_color, prompt, rows, m);
        lemma_listed_rows(cells, size, text_color, prompt, rows, m);
        lemma_printed_cells(
            before,
            before,
            screen(size),
            slot_x(n - 1, rows),
            size.1 - rows - 2 + slot_y(n - 1, rows),
            prompt.completion@[n - 1]@,
            BASE_WIDTH - 1,
            completion_style(prompt.completion_selection_index, n - 1, text_color),
        );
        assert(0 <= slot_y(n - 1, rows) < rows);
    }
}

/// There is room for a prompt without completions on any screen that has a row, and otherwise where
/// a column of completions fits and all of them find their place above the last two rows. Only the
/// lowest 16 bits of their number count, which are to leave room for one less than the columns.
pub proof fn lemma_room_is_enough(size: (u16, u16), prompt: Prompt)
    ensures
        has_room(size, prompt) <==> size.1 >= 1 && (prompt.completion@.len() == 0 || {
            let shown = prompt.completion@.len() as int % 0x1_0000;
            let columns = size.0 as int / 30;
            &&& size.0 >= 30
            &&& 0 < shown <= u16::MAX - columns
            &&& size.1 >= 2
            &&& shown <= (size.1 - 2) * columns
        }),
{
    if prompt.completion@.len() > 0 && size.0 >= 30 {
        let shown = prompt.completion@.len() as int % 0x1_0000;
        let columns = size.0 as int / 30;
        let rows = grid_rows(prompt.completion@.len(), size.0);
        vstd::arithmetic::div_mod::lemma_fundamental_div_mod(shown + columns - 1, columns);
        let rest = (shown + columns - 1) % columns;
        assert(rows <= size.1 - 2 ==> shown <= (size.1 - 2) * columns) by (nonlinear_arith)
            requires
                shown + columns - 1 == columns * rows + rest,
                0 <= rest < columns,
        ;
        assert(shown <= (size.1 - 2) * columns ==> rows <= size.1 - 2) by (nonlinear_arith)
            requires
                shown + columns - 1 == columns * rows + rest,
                0 <= rest < columns,
        ;
        if shown > 0 {
            assert(rows > 0) by (nonlinear_arith)
                requires
                    shown + columns - 1 == columns * rows + rest,
                    0 <= rest < columns,
                    shown > 0,
            ;
        }
    }
}

/// Draws the completions in a grid of `rows` rows above the last two rows of the screen.
pub(crate) fn list_completions(
    surface: &mut Surface,
    size: (u16, u16),
    text_color: Style,
    prompt: &Prompt,
    rows: u16,
)
    requires
        old(surface).wf(),
        old(surface).area() == screen(size),
        0 < rows,
        rows + 2 <= size.1,
    ensures
        final(surface).wf(),
        final(surface).area() == old(surface).area(),
        final(surface)@ == listed_cells(
            old(surface)@,
            size,
            text_color,
            *prompt,
            rows as int,
            prompt.completion@.len(),
        ),
        same_outside_rows(old(surface)@, final(surface)@, size.1 - rows - 2, size.1 - 2),
        shows_completions(
            old(surface)@,
            final(surface)@,
            size,
            text_color,
            *prompt,
            rows as int,
            prompt.completion@.len(),
        ),
{
    let ghost cells = surface@;
    let ghost area = surface.area();
    let max_col: u16 = size.0 / BASE_WIDTH;
    let mut row: u16 = 0;
    let mut col: u16 = 0;
    let mut i: usize = 0;
    while i < prompt.completion.len() && col <= max_col
        invariant
            i <= prompt.completion.len(),
            max_col == grid_columns(size.0),
            row < rows,
            col <= max_col + 1,
            i == col * rows + row,
            rows + 2 <= size.1,
            surface.wf(),
            surface.area() == area,
            area == screen(size),
            surface@ == listed_cells(cells, size, text_color, *prompt, rows as int, i as nat),
            same_outside_rows(cells, surface@, size.1 - rows - 2, size.1 - 2),
            shows_completions(
                cells,
                surface@,
                size,
                text_color,
                *prompt,
                rows as int,
                i as nat,
            ),
        decreases prompt.completion.len() - i,
    {
        let color = match prompt.completion_selection_index {
            Some(picked) => if i == picked {
                Style::default().bg(CellColor::Rgb(104, 60, 232))
            } else {
                text_color
            },
            None => text_color,
        };
        proof {
            vstd::arithmetic::div_mod::lemma_fundamental_div_mod_converse(
                i as int,
                rows as int,
                col as int,
                row as int,
            );
        }
        let ghost earlier = surface@;
        surface.set_stringn(
            1 + col * BASE_WIDTH,
            size.1 - rows - 2 + row,
            prompt.completion[i].as_str(),
            BASE_WIDTH as usize - 1,
            color,
        );
        proof {
            lemma_completion_is_added(
                cells,
                earlier,
                surface@,
                size,
                text_color,
                *prompt,
                rows as int,
                i as nat,
            );
        }
        row = row + 1;
        i = i + 1;
        if row > rows - 1 {
            assert((col + 1) * rows == col * rows + rows) by (nonlinear_arith);
            row = 0;
            col = col + 1;
        }
    }
    proof {
        if i < prompt.completion.len() {
            vstd::arithmetic::div_mod::lemma_fundamental_div_mod_converse(
                i as int,
                rows as int,
                col as int,
                row as int,
            );
            lemma_listed_beyond(
                cells,
                size,
                text_color,
                *prompt,
                rows as int,
                i as nat,
                prompt.completion@.len(),
            );
            lemma_completions_end(
                cells,
                surface@,
                size,
                text_color,
                *prompt,
                rows as int,
                i as nat,
                prompt.completion@.len(),
            );
        }
    }
}

} // verus!
