//! Where the graphemes of a document come to stand on the screen.
use crate::document::{
    open_scopes, scope_style, selection_style, DocumentView, HighlightEvent, Range, Text,
};
use crate::style::{CellColor, Style};
use crate::surface::{
    columns, columns_of, graphemes_of, is_grapheme, least, lemma_grapheme_is_printed,
    lemma_graphemes_stay, lemma_printed_cells, lemma_reach_is_bounded, printed_cells, reach,
    same_outside, shows_graphemes, CellView, Cells, Rect,
};
use vstd::prelude::*;

verus! {

/// The columns left of the text: five for the line number and one of gutter.
pub const OFFSET: u16 = 6;

/// A grapheme with the look that it is to have.
pub struct Glyph {
    pub text: Seq<char>,
    pub width: nat,
    pub style: Style,
}

/// The glyphs of a stretch of text whose scopes call for the style `base`.
pub open spec fn text_glyphs(text: Text, base: Style, selections: Seq<Range>) -> Seq<Glyph> {
    Seq::new(
        text.graphemes@.len(),
        |i: int|
            Glyph {
                text: text.graphemes@[i].text@,
                width: text.graphemes@[i].width as nat,
                style: selection_style(base, selections, text.start + i),
            },
    )
}

/// The glyphs of the first `n` events of a document.
pub open spec fn glyphs(document: DocumentView, n: nat) -> Seq<Glyph>
    decreases n,
{
    if n == 0 {
        Seq::empty()
    } else {
        let before = glyphs(document, (n - 1) as nat);
        match document.highlights@[n - 1] {
            HighlightEvent::Source(text) => before + text_glyphs(
                text,
                scope_style(document.theme, open_scopes(document.highlights@, (n - 1) as nat)),
                document.selections@,
            ),
            _ => before,
        }
    }
}

pub open spec fn is_newline(glyph: Glyph) -> bool {
    glyph.text == seq!['\n']
}

pub open spec fn is_tab(glyph: Glyph) -> bool {
    glyph.text == seq!['\t']
}

/// The glyph is drawn: newlines and tabs only move what follows.
pub open spec fn is_drawn(glyph: Glyph) -> bool {
    !is_newline(glyph) && !is_tab(glyph)
}

/// The row that comes after the given glyphs: the number of newlines among them.
pub open spec fn row_after(before: Seq<Glyph>) -> nat
    decreases before.len(),
{
    if before.len() == 0 {
        0
    } else if is_newline(before.last()) {
        row_after(before.drop_last()) + 1
    } else {
        row_after(before.drop_last())
    }
}

/// The column of the text that comes after the given glyphs: what those since the last newline
/// take up.
pub open spec fn column_after(before: Seq<Glyph>, tab_width: nat) -> nat
    decreases before.len(),
{
    if before.len() == 0 || is_newline(before.last()) {
        0
    } else if is_tab(before.last()) {
        column_after(before.drop_last(), tab_width) + tab_width
    } else {
        column_after(before.drop_last(), tab_width) + before.last().width
    }
}

/// The number of rows that text is shown in where `height` rows are to be seen: the first row is
/// shown in any case.
pub open spec fn shown_rows(height: int) -> int {
    if height > 0 {
        height
    } else {
        1
    }
}

/// `cells` with the given glyphs drawn, each at its row and column, to the right of the line
/// numbers. Newlines and tabs only move what follows, and what is below the shown rows or past the
/// right edge is not seen.
pub open spec fn drawn_glyphs(
    cells: Cells,
    area: Rect,
    text: Seq<Glyph>,
    height: int,
    tab_width: nat,
) -> Cells
    decreases text.len(),
{
    if text.len() == 0 {
        cells
    } else {
        let before = text.drop_last();
        let glyph = text.last();
        let drawn = drawn_glyphs(cells, area, before, height, tab_width);
        if is_drawn(glyph) && row_after(before) < shown_rows(height) {
            printed_cells(
                drawn,
                area,
                OFFSET + column_after(before, tab_width),
                row_after(before) as int,
                glyph.text,
                usize::MAX as int,
                glyph.style,
            )
        } else {
            drawn
        }
    }
}

/// Every glyph that is seen is in one of the first `rows` rows.
pub open spec fn stays_within(text: Seq<Glyph>, height: int, rows: int) -> bool {
    forall|i: int|
        0 <= i < text.len() && is_drawn(#[trigger] text[i]) && row_after(text.take(i))
            < shown_rows(height) ==> row_after(text.take(i)) < rows
}

/// One of the glyphs takes up the cell at `p`.
pub open spec fn is_taken(
    area: Rect,
    text: Seq<Glyph>,
    height: int,
    tab_width: nat,
    p: (int, int),
) -> bool
    decreases text.len(),
{
    if text.len() == 0 {
        false
    } else {
        let before = text.drop_last();
        let glyph = text.last();
        let x = OFFSET + column_after(before, tab_width);
        ||| is_taken(area, before, height, tab_width, p)
        ||| {
            &&& is_drawn(glyph)
            &&& row_after(before) < shown_rows(height)
            &&& row_after(before) == p.1
            &&& x <= p.0 < x + reach(
                glyph.text,
                least(usize::MAX as int, area.x + area.width - x),
            )
        }
    }
}

/// In the given row, the glyphs take up no more columns than the text counts for them.
pub open spec fn is_even(text: Seq<Glyph>, row: int) -> bool
    decreases text.len(),
{
    if text.len() == 0 {
        true
    } else {
        let before = text.drop_last();
        let glyph = text.last();
        &&& is_even(before, row)
        &&& is_drawn(glyph) && row_after(before) == row ==> columns_of(graphemes_of(glyph.text))
            <= glyph.width
    }
}

/// The glyph that follows `before` is one grapheme, and there is room for it on the screen.
pub open spec fn has_place(
    area: Rect,
    before: Seq<Glyph>,
    glyph: Glyph,
    height: int,
    tab_width: nat,
) -> bool {
    &&& is_drawn(glyph)
    &&& is_grapheme(glyph.text)
    &&& columns(glyph.text) >= 1
    &&& row_after(before) < shown_rows(height)
    &&& OFFSET + column_after(before, tab_width) + columns(glyph.text) <= area.x + area.width
}

/// The cell shows the glyph, in its style.
pub open spec fn bears(cell: CellView, glyph: Glyph) -> bool {
    exists|base: CellView|
        cell == (CellView { symbol: glyph.text, ..#[trigger] base.styled(glyph.style) })
}

/// How many of the glyphs are the one character `c`.
pub open spec fn count_of(text: Seq<Glyph>, c: char) -> nat {
    text.filter(|glyph: Glyph| glyph.text == seq![c]).len()
}

/// The widths of the glyphs together, but for tabs.
pub open spec fn widths_of(text: Seq<Glyph>) -> int {
    text.filter(|glyph: Glyph| glyph.text != seq!['\t']).fold_left(
        0,
        |sum: int, glyph: Glyph| sum + glyph.width,
    )
}

/// The glyphs from `from` on are a line, or the start of one: a newline or nothing comes before
/// them, and there is none among them.
pub open spec fn is_line(text: Seq<Glyph>, from: int) -> bool {
    &&& 0 <= from <= text.len()
    &&& from == 0 || text[from - 1].text == seq!['\n']
    &&& forall|k: int| from <= k < text.len() ==> (#[trigger] text[k]).text != seq!['\n']
}

/// Rows are counted by newlines: what follows a text stands as many rows down as the text has
/// newlines.
pub proof fn lemma_rows_are_counted(text: Seq<Glyph>)
    ensures
        row_after(text) == count_of(text, '\n'),
    decreases text.len(),
{
    reveal_with_fuel(Seq::filter, 2);
    if text.len() > 0 {
        lemma_rows_are_counted(text.drop_last());
    }
}

/// A text stays within `rows` rows exactly if every glyph that is seen, which is one in the first row
/// or in one of the first `height`, has fewer newlines than that before it.
pub proof fn lemma_text_stays_within(text: Seq<Glyph>, height: int, rows: int)
    ensures
        stays_within(text, height, rows) <==> forall|i: int|
            0 <= i < text.len() && (#[trigger] text[i]).text != seq!['\n'] && text[i].text
                != seq!['\t'] && (count_of(text.take(i), '\n') == 0 || count_of(
                text.take(i),
                '\n',
            ) < height) ==> count_of(text.take(i), '\n') < rows,
{
    assert forall|i: int| 0 <= i < text.len() implies row_after(#[trigger] text.take(i))
        == count_of(text.take(i), '\n') by {
        lemma_rows_are_counted(text.take(i));
    }
}

/// Columns are counted by tabs and widths: what follows a line stands a tab's width further right
/// for each tab of the line, wherever in the line it is, and the width of each other glyph.
pub proof fn lemma_columns_are_counted(text: Seq<Glyph>, from: int, tab_width: nat)
    requires
        is_line(text, from),
    ensures
        column_after(text, tab_width) == count_of(text.skip(from), '\t') * tab_width + widths_of(
            text.skip(from),
        ),
    decreases text.len(),
{
    reveal_with_fuel(Seq::filter, 2);
    reveal_with_fuel(Seq::fold_left, 2);
    let line = text.skip(from);
    if line.len() == 0 {
        assert(count_of(line, '\t') * tab_width == 0) by (nonlinear_arith)
            requires
                count_of(line, '\t') == 0,
        ;
    } else {
        let before = text.drop_last();
        assert(line.last() == text.last());
        assert(line.drop_last() =~= before.skip(from));
        assert(is_line(before, from));
        lemma_columns_are_counted(before, from, tab_width);
        let others = |glyph: Glyph| glyph.text != seq!['\t'];
        if line.last().text == seq!['\t'] {
            assert(count_of(line, '\t') == count_of(line.drop_last(), '\t') + 1);
            assert((count_of(line.drop_last(), '\t') + 1) * tab_width == count_of(
                line.drop_last(),
                '\t',
            ) * tab_width + tab_width) by (nonlinear_arith);
        } else {
            assert(line.filter(others) == line.drop_last().filter(others).push(line.last()));
            assert(line.filter(others).drop_last() =~= line.drop_last().filter(others));
        }
    }
}

/// A glyph moves what follows it, whatever comes before: a newline to the start of the next row, a
/// tab a tab's width to the right, and any other glyph its own width to the right.
pub proof fn lemma_glyph_moves_the_next(text: Seq<Glyph>, glyph: Glyph, tab_width: nat)
    ensures
        ({
            let row = row_after(text.push(glyph));
            let column = column_after(text.push(glyph), tab_width);
            if glyph.text == seq!['\n'] {
                row == row_after(text) + 1 && column == 0
            } else if glyph.text == seq!['\t'] {
                row == row_after(text) && column == column_after(text, tab_width) + tab_width
            } else {
                row == row_after(text) && column == column_after(text, tab_width) + glyph.width
            }
        }),
{
    assert(text.push(glyph).drop_last() == text);
}

/// The text of a document is that of its pieces of source, one after another: grapheme `k` of the
/// piece in event `n` comes after all that the events before it hold, with its own text and width.
/// Its style is that of the outermost scope that is open there, and its index is counted from where
/// its piece starts.
pub proof fn lemma_source_is_text(document: DocumentView, n: nat, m: nat, k: int)
    requires
        n < m <= document.highlights@.len(),
        document.highlights@[n as int] matches HighlightEvent::Source(text) && 0 <= k
            < text.graphemes@.len(),
    ensures
        document.highlights@[n as int] matches HighlightEvent::Source(text) && {
            let glyph = glyphs(document, m)[glyphs(document, n).len() + k];
            let scopes = open_scopes(document.highlights@, n);
            let index = text.start + k;
            &&& glyphs(document, n).len() + k < glyphs(document, m).len()
            &&& glyph.text == text.graphemes@[k].text@
            &&& glyph.width == text.graphemes@[k].width
            &&& scopes.len() > 0 ==> {
                let base = document.theme.scopes@[scopes.first() as int];
                &&& glyph.style == selection_style(base, document.selections@, index)
            }
            &&& scopes.len() == 0 ==> {
                &&& glyph.style.fg == Some(CellColor::Rgb(164, 160, 232))
                &&& glyph.style == selection_style(
                    Style {
                        fg: Some(CellColor::Rgb(164, 160, 232)),
                        bg: None,
                        add_modifier: 0,
                        sub_modifier: 0,
                    },
                    document.selections@,
                    index,
                )
            }
        },
{
    let rest = lemma_glyphs_extend(document, n + 1, m);
    match document.highlights@[n as int] {
        HighlightEvent::Source(text) => {
            let more = text_glyphs(
                text,
                scope_style(document.theme, open_scopes(document.highlights@, n)),
                document.selections@,
            );
            assert(glyphs(document, n + 1) == glyphs(document, n) + more);
            assert(glyphs(document, m)[glyphs(document, n).len() + k] == more[k]);
        },
        _ => {},
    }
}

/// There is no other text than that of the pieces of source.
pub proof fn lemma_text_is_source(document: DocumentView, n: nat)
    requires
        n < document.highlights@.len(),
    ensures
        glyphs(document, 0).len() == 0,
        glyphs(document, n + 1).len() == glyphs(document, n).len() + match document.highlights@[
        n as int] {
            HighlightEvent::Source(text) => text.graphemes@.len(),
            _ => 0,
        },
{
}

/// Where a glyph of a text comes to stand, and what is to be seen there: it is a grapheme in the row
/// that the newlines before it count, a tab's width right of the gutter for each tab before it on
/// its line and the width of each other glyph there. It is seen where there is room for it, in a row
/// below `height` or in the first one; the rest of the text does not matter.
pub proof fn lemma_glyph_stands(
    cells: Cells,
    area: Rect,
    text: Seq<Glyph>,
    height: int,
    tab_width: nat,
    from: int,
    i: int,
)
    requires
        0 <= from <= i < text.len(),
        is_line(text.take(i), from),
        text[i].text != seq!['\n'],
        text[i].text != seq!['\t'],
        is_grapheme(text[i].text),
        columns(text[i].text) >= 1,
        text[i].width >= 1,
        ({
            let line = text.subrange(from, i);
            let column = 6 + count_of(line, '\t') * tab_width + widths_of(line);
            let row = count_of(text.take(i), '\n') as int;
            &&& row == 0 || row < height
            &&& column + columns(text[i].text) <= area.x + area.width
            &&& cells.dom().contains((column, row))
        }),
    ensures
        ({
            let line = text.subrange(from, i);
            let column = 6 + count_of(line, '\t') * tab_width + widths_of(line);
            let row = count_of(text.take(i), '\n') as int;
            let cell = drawn_glyphs(cells, area, text, height, tab_width)[(column, row)];
            &&& cell.symbol == text[i].text
            &&& text[i].style.fg matches Some(color) ==> cell.fg == color
            &&& text[i].style.bg matches Some(color) ==> cell.bg == color
        }),
{
    assert(text.take(i).skip(from) =~= text.subrange(from, i));
    lemma_rows_are_counted(text.take(i));
    lemma_columns_are_counted(text.take(i), from, tab_width);
    lemma_glyph_is_shown(cells, area, text, height, tab_width, i);
}

/// Where the text of any glyph comes to stand, be it one grapheme or not: its graphemes are shown one
/// after another over what was there, as far as the right edge, if those before it in its row and it
/// itself take up no more columns than the text counts for them.
pub proof fn lemma_any_glyph_stands(
    cells: Cells,
    area: Rect,
    text: Seq<Glyph>,
    height: int,
    tab_width: nat,
    i: int,
)
    requires
        0 <= i < text.len(),
        text[i].text != seq!['\n'],
        text[i].text != seq!['\t'],
        row_after(text.take(i)) == 0 || row_after(text.take(i)) < height,
        columns_of(graphemes_of(text[i].text)) <= text[i].width,
        is_even(text.take(i), row_after(text.take(i)) as int),
    ensures
        ({
            let x = 6 + column_after(text.take(i), tab_width) as int;
            let graphemes = graphemes_of(text[i].text);
            shows_graphemes(
                cells,
                drawn_glyphs(cells, area, text, height, tab_width),
                x,
                row_after(text.take(i)) as int,
                graphemes,
                least(
                    columns_of(graphemes) as int,
                    least(usize::MAX as int, area.x + area.width - x),
                ),
                text[i].style,
            )
        }),
    decreases text.len(),
{
    let before = text.drop_last();
    let drawn = drawn_glyphs(cells, area, before, height, tab_width);
    let whole = drawn_glyphs(cells, area, text, height, tab_width);
    let x = 6 + column_after(text.take(i), tab_width) as int;
    let y = row_after(text.take(i)) as int;
    let graphemes = graphemes_of(text[i].text);
    let edge = least(usize::MAX as int, area.x + area.width - x);
    let room = least(columns_of(graphemes) as int, edge);
    lemma_same_domain(cells, area, before, height, tab_width);
    if i == text.len() - 1 {
        assert(before == text.take(i));
        lemma_printed_cells(
            drawn,
            drawn,
            area,
            x,
            y,
            text[i].text,
            usize::MAX as int,
            text[i].style,
        );
        assert(shows_graphemes(drawn, whole, x, y, graphemes, room, text[i].style));
        assert forall|c: int| x <= c < x + room && #[trigger] cells.dom().contains((c, y)) implies {
            &&& drawn.dom().contains((c, y))
            &&& cells[(c, y)] == drawn[(c, y)]
            &&& whole[(c, y)] == whole[(c, y)]
        } by {
            lemma_ahead_is_free(area, before, height, tab_width, (c, y));
            lemma_rest_is_untouched(cells, area, before, height, tab_width, (c, y));
        }
        lemma_graphemes_stay(drawn, whole, cells, whole, x, y, graphemes, room, text[i].style);
    } else {
        assert(before.take(i) == text.take(i));
        lemma_any_glyph_stands(cells, area, before, height, tab_width, i);
        lemma_text_goes_on(before, tab_width, i);
        lemma_last_glyph(cells, area, text, height, tab_width);
        assert forall|c: int| x <= c < x + room && #[trigger] cells.dom().contains((c, y)) implies {
            &&& cells.dom().contains((c, y))
            &&& cells[(c, y)] == cells[(c, y)]
            &&& whole[(c, y)] == drawn[(c, y)]
        } by {}
        lemma_graphemes_stay(cells, drawn, cells, whole, x, y, graphemes, room, text[i].style);
    }
}

/// Where no glyph of the row stands, nothing is drawn: not left of the text, not below `height`
/// rows, and not in a column that none of the glyphs in that row takes up.
pub proof fn lemma_nothing_else_is_drawn(
    cells: Cells,
    area: Rect,
    text: Seq<Glyph>,
    height: int,
    tab_width: nat,
    p: (int, int),
)
    requires
        cells.dom().contains(p),
        p.0 < 6 || p.1 >= 1 && p.1 >= height || forall|i: int|
            0 <= i < text.len() && (#[trigger] text[i]).text != seq!['\n'] && text[i].text
                != seq!['\t'] && row_after(text.take(i)) == p.1 ==> p.0 < 6 + column_after(
                text.take(i),
                tab_width,
            ) || p.0 >= 6 + column_after(text.take(i), tab_width) + columns_of(
                graphemes_of(text[i].text),
            ),
    ensures
        drawn_glyphs(cells, area, text, height, tab_width)[p] == cells[p],
    decreases text.len(),
{
    lemma_text_keeps_off(cells, area, text, height, tab_width);
    if p.0 >= 6 && !(p.1 >= 1 && p.1 >= height) && text.len() > 0 {
        let before = text.drop_last();
        let x = OFFSET + column_after(before, tab_width);
        assert forall|i: int|
            0 <= i < before.len() && (#[trigger] before[i]).text != seq!['\n'] && before[i].text
                != seq!['\t'] && row_after(before.take(i)) == p.1 implies p.0 < 6 + column_after(
            before.take(i),
            tab_width,
        ) || p.0 >= 6 + column_after(before.take(i), tab_width) + columns_of(
            graphemes_of(before[i].text),
        ) by {
            assert(text[i] == before[i]);
            assert(text.take(i) =~= before.take(i));
        }
        lemma_nothing_else_is_drawn(cells, area, before, height, tab_width, p);
        lemma_same_domain(cells, area, before, height, tab_width);
        lemma_last_glyph(cells, area, text, height, tab_width);
        lemma_reach_is_bounded(
            text.last().text,
            least(usize::MAX as int, area.x + area.width - x),
        );
        assert(text[text.len() - 1] == text.last());
        assert(text.take(text.len() - 1) =~= before);
    }
}

/// More glyphs never lead back up.
pub proof fn lemma_rows_grow(text: Seq<Glyph>, rest: Seq<Glyph>)
    ensures
        row_after(text + rest) >= row_after(text),
    decreases rest.len(),
{
    if rest.len() > 0 {
        lemma_rows_grow(text, rest.drop_last());
        assert((text + rest).drop_last() == text + rest.drop_last());
    }
}

/// Glyphs that follow the shown rows change nothing.
pub proof fn lemma_below_shown_rows(
    cells: Cells,
    area: Rect,
    text: Seq<Glyph>,
    rest: Seq<Glyph>,
    height: int,
    tab_width: nat,
)
    requires
        row_after(text) >= shown_rows(height),
    ensures
        drawn_glyphs(cells, area, text + rest, height, tab_width) == drawn_glyphs(
            cells,
            area,
            text,
            height,
            tab_width,
        ),
    decreases rest.len(),
{
    if rest.len() == 0 {
        assert(text + rest == text);
    } else {
        lemma_below_shown_rows(cells, area, text, rest.drop_last(), height, tab_width);
        lemma_rows_grow(text, rest.drop_last());
        assert((text + rest).drop_last() == text + rest.drop_last());
    }
}

/// The glyphs of the first `n` events start those of the first `m`.
pub proof fn lemma_glyphs_extend(document: DocumentView, n: nat, m: nat) -> (rest: Seq<Glyph>)
    requires
        n <= m,
    ensures
        glyphs(document, m) == glyphs(document, n) + rest,
    decreases m,
{
    if n == m {
        Seq::empty()
    } else {
        let rest = lemma_glyphs_extend(document, n, (m - 1) as nat);
        match document.highlights@[m - 1] {
            HighlightEvent::Source(text) => {
                let more = text_glyphs(
                    text,
                    scope_style(document.theme, open_scopes(document.highlights@, (m - 1) as nat)),
                    document.selections@,
                );
                rest + more
            },
            _ => rest,
        }
    }
}

/// The place is one that the text has not come to yet: in a row further down, or further right in
/// the row that it has come to.
pub open spec fn is_ahead(text: Seq<Glyph>, tab_width: nat, p: (int, int)) -> bool {
    p.1 > row_after(text) || p.1 == row_after(text) && p.0 >= OFFSET + column_after(
        text,
        tab_width,
    )
}

/// Text goes on ahead: after more of it, the columns of glyph `i` are behind.
proof fn lemma_text_goes_on(text: Seq<Glyph>, tab_width: nat, i: int)
    requires
        0 <= i < text.len(),
        is_drawn(text[i]),
    ensures
        row_after(text) > row_after(text.take(i)) || row_after(text) == row_after(text.take(i))
            && column_after(text, tab_width) >= column_after(text.take(i), tab_width)
            + text[i].width,
    decreases text.len(),
{
    let before = text.drop_last();
    if i < text.len() - 1 {
        assert(before.take(i) == text.take(i));
        lemma_text_goes_on(before, tab_width, i);
    } else {
        assert(before == text.take(i));
    }
}

/// Drawing the last glyph of a text changes at most the cells that it takes up.
proof fn lemma_last_glyph(
    cells: Cells,
    area: Rect,
    text: Seq<Glyph>,
    height: int,
    tab_width: nat,
)
    requires
        text.len() > 0,
    ensures
        ({
            let before = text.drop_last();
            let x = OFFSET + column_after(before, tab_width);
            same_outside(
                drawn_glyphs(cells, area, before, height, tab_width),
                drawn_glyphs(cells, area, text, height, tab_width),
                row_after(before) as int,
                x,
                x + reach(text.last().text, least(usize::MAX as int, area.x + area.width - x)),
            )
        }),
{
    let before = text.drop_last();
    let drawn = drawn_glyphs(cells, area, before, height, tab_width);
    lemma_printed_cells(
        drawn,
        drawn,
        area,
        OFFSET + column_after(before, tab_width),
        row_after(before) as int,
        text.last().text,
        usize::MAX as int,
        text.last().style,
    );
}

/// Text adds no cells and removes none.
pub proof fn lemma_same_domain(
    cells: Cells,
    area: Rect,
    text: Seq<Glyph>,
    height: int,
    tab_width: nat,
)
    ensures
        drawn_glyphs(cells, area, text, height, tab_width).dom() == cells.dom(),
    decreases text.len(),
{
    if text.len() > 0 {
        lemma_same_domain(cells, area, text.drop_last(), height, tab_width);
        lemma_last_glyph(cells, area, text, height, tab_width);
    }
}

/// A cell that no glyph takes up is as it was before the text was drawn.
pub proof fn lemma_rest_is_untouched(
    cells: Cells,
    area: Rect,
    text: Seq<Glyph>,
    height: int,
    tab_width: nat,
    p: (int, int),
)
    requires
        cells.dom().contains(p),
        !is_taken(area, text, height, tab_width, p),
    ensures
        drawn_glyphs(cells, area, text, height, tab_width)[p] == cells[p],
    decreases text.len(),
{
    if text.len() > 0 {
        lemma_rest_is_untouched(cells, area, text.drop_last(), height, tab_width, p);
        lemma_same_domain(cells, area, text.drop_last(), height, tab_width);
        lemma_last_glyph(cells, area, text, height, tab_width);
    }
}

/// Text keeps off the line numbers and the gutter, and the rows below the shown ones.
pub proof fn lemma_text_keeps_off(
    cells: Cells,
    area: Rect,
    text: Seq<Glyph>,
    height: int,
    tab_width: nat,
)
    ensures
        drawn_glyphs(cells, area, text, height, tab_width).dom() == cells.dom(),
        forall|p: (int, int)|
            #![trigger drawn_glyphs(cells, area, text, height, tab_width)[p]]
            cells.dom().contains(p) && (p.0 < OFFSET || p.1 >= shown_rows(height)) ==> drawn_glyphs(
                cells,
                area,
                text,
                height,
                tab_width,
            )[p] == cells[p],
    decreases text.len(),
{
    if text.len() > 0 {
        lemma_text_keeps_off(cells, area, text.drop_last(), height, tab_width);
        lemma_last_glyph(cells, area, text, height, tab_width);
    }
}

/// In an even row, the cells ahead of the text are not taken.
proof fn lemma_ahead_is_free(
    area: Rect,
    text: Seq<Glyph>,
    height: int,
    tab_width: nat,
    p: (int, int),
)
    requires
        is_even(text, p.1),
        is_ahead(text, tab_width, p),
    ensures
        !is_taken(area, text, height, tab_width, p),
    decreases text.len(),
{
    if text.len() > 0 {
        let before = text.drop_last();
        let x = OFFSET + column_after(before, tab_width);
        lemma_ahead_is_free(area, before, height, tab_width, p);
        lemma_reach_is_bounded(
            text.last().text,
            least(usize::MAX as int, area.x + area.width - x),
        );
    }
}

/// Every grapheme that has a place on the screen and follows an even part of its row is seen: in the
/// row that the newlines before it give and the column that the glyphs of its line give, in its own
/// style, with blank cells where it is wider than one column. What follows it does not matter.
pub proof fn lemma_glyph_is_seen(
    cells: Cells,
    area: Rect,
    text: Seq<Glyph>,
    height: int,
    tab_width: nat,
    i: int,
)
    requires
        0 <= i < text.len(),
        has_place(area, text.take(i), text[i], height, tab_width),
        columns(text[i].text) <= text[i].width,
        is_even(text.take(i), row_after(text.take(i)) as int),
    ensures
        ({
            let column = OFFSET + column_after(text.take(i), tab_width);
            let row = row_after(text.take(i)) as int;
            let drawn = drawn_glyphs(cells, area, text, height, tab_width);
            &&& cells.dom().contains((column, row)) ==> drawn[(column, row)] == (CellView {
                symbol: text[i].text,
                ..cells[(column, row)].styled(text[i].style)
            })
            &&& forall|x: int|
                column < x < column + columns(text[i].text) && cells.dom().contains((x, row))
                    ==> #[trigger] drawn[(x, row)] == CellView::blank()
        }),
    decreases text.len(),
{
    let before = text.drop_last();
    let column = OFFSET + column_after(text.take(i), tab_width);
    let row = row_after(text.take(i)) as int;
    lemma_same_domain(cells, area, before, height, tab_width);
    if i == text.len() - 1 {
        assert(before == text.take(i));
        lemma_ahead_is_free(area, before, height, tab_width, (column, row));
        if cells.dom().contains((column, row)) {
            lemma_rest_is_untouched(cells, area, before, height, tab_width, (column, row));
        }
        lemma_grapheme_is_printed(
            drawn_glyphs(cells, area, before, height, tab_width),
            area,
            column,
            row,
            text[i].text,
            usize::MAX as int,
            text[i].style,
        );
    } else {
        assert(before.take(i) == text.take(i));
        lemma_glyph_is_seen(cells, area, before, height, tab_width, i);
        lemma_text_goes_on(before, tab_width, i);
        lemma_last_glyph(cells, area, text, height, tab_width);
    }
}

/// Every grapheme that has a place on the screen, and to which the text gives a column, is shown
/// there in its style, whatever the rest of the text is.
pub proof fn lemma_glyph_is_shown(
    cells: Cells,
    area: Rect,
    text: Seq<Glyph>,
    height: int,
    tab_width: nat,
    i: int,
)
    requires
        0 <= i < text.len(),
        has_place(area, text.take(i), text[i], height, tab_width),
        text[i].width >= 1,
        cells.dom().contains(
            (OFFSET + column_after(text.take(i), tab_width), row_after(text.take(i)) as int),
        ),
    ensures
        bears(
            drawn_glyphs(cells, area, text, height, tab_width)[(
                OFFSET + column_after(text.take(i), tab_width),
                row_after(text.take(i)) as int,
            )],
            text[i],
        ),
    decreases text.len(),
{
    let before = text.drop_last();
    let p = (OFFSET + column_after(text.take(i), tab_width), row_after(text.take(i)) as int);
    let drawn = drawn_glyphs(cells, area, before, height, tab_width);
    lemma_same_domain(cells, area, before, height, tab_width);
    if i < text.len() - 1 {
        assert(before.take(i) == text.take(i));
        lemma_glyph_is_shown(cells, area, before, height, tab_width, i);
        lemma_text_goes_on(before, tab_width, i);
        lemma_last_glyph(cells, area, text, height, tab_width);
    } else {
        assert(before == text.take(i));
        lemma_grapheme_is_printed(
            drawn,
            area,
            p.0,
            p.1,
            text[i].text,
            usize::MAX as int,
            text[i].style,
        );
        let base = drawn[p];
        assert(drawn_glyphs(cells, area, text, height, tab_width)[p] == (CellView {
            symbol: text[i].text,
            ..base.styled(text[i].style)
        }));
    }
}

} // verus!
