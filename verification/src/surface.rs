//! The grid of cells that a frame is drawn on. The grid itself is `tui`'s buffer; the items marked
//! `external_body` call it, and what they claim of it is not proved here.
use crate::style::{CellColor, Style, MODIFIERS};
use tui::buffer::Buffer;
use tui::style::{Color as TuiColor, Modifier, Style as TuiStyle};
use vstd::prelude::*;

verus! {

#[verifier::external_type_specification]
#[verifier::external_body]
pub struct ExBuffer(tui::buffer::Buffer);

#[verifier::external_type_specification]
#[verifier::external_body]
pub struct ExColor(tui::style::Color);

/// A rectangle of the screen.
#[derive(Debug, Clone, Copy, PartialEq, Eq, Structural)]
pub struct Rect {
    pub x: u16,
    pub y: u16,
    pub width: u16,
    pub height: u16,
}

impl Rect {
    /// The rectangle covers the position `p`, a pair of column and row.
    pub open spec fn covers(self, p: (int, int)) -> bool {
        &&& self.x <= p.0 < self.x + self.width
        &&& self.y <= p.1 < self.y + self.height
    }

    /// Every position of the rectangle is one of `area`.
    pub open spec fn within(self, area: Rect) -> bool {
        &&& area.x <= self.x
        &&& self.x + self.width <= area.x + area.width
        &&& area.y <= self.y
        &&& self.y + self.height <= area.y + area.height
    }

    /// The rectangle of the given origin and extent, made smaller where it would have more than
    /// `u16::MAX` cells.
    pub fn new(x: u16, y: u16, width: u16, height: u16) -> (rect: Rect)
        ensures
            rect == bounded_rect(x, y, width, height),
            rect.x == x,
            rect.y == y,
            rect.width <= width,
            rect.height <= height,
            rect.width * rect.height <= u16::MAX,
            width * height <= u16::MAX ==> rect.width == width && rect.height == height,
    {
        tui_rect_new(x, y, width, height)
    }
}

/// A screen of this size has at most `u16::MAX` cells, so that a grid of cells covers it whole.
pub open spec fn fits(size: (u16, u16)) -> bool {
    size.0 * size.1 <= u16::MAX
}

/// The whole screen.
pub open spec fn screen(size: (u16, u16)) -> Rect {
    Rect { x: 0, y: 0, width: size.0, height: size.1 }
}

/// The screen has as many columns and rows as its size says, counted from 0, and fits where they
/// make up no more than `u16::MAX` cells.
pub proof fn lemma_screen_is_counted(size: (u16, u16), p: (int, int))
    ensures
        screen(size).covers(p) <==> 0 <= p.0 < size.0 && 0 <= p.1 < size.1,
        fits(size) <==> size.0 * size.1 <= 65535,
{
}

/// What `tui::layout::Rect::new` returns for these arguments.
pub uninterp spec fn bounded_rect(x: u16, y: u16, width: u16, height: u16) -> Rect;

/// `tui::layout::Rect::new`: the origin is kept; the extent is kept where the rectangle has at most
/// `u16::MAX` cells, and is otherwise made smaller until it has. By how much is left to
/// `bounded_rect`: it is computed in floating point.
#[verifier::external_body]
fn tui_rect_new(x: u16, y: u16, width: u16, height: u16) -> (rect: Rect)
    ensures
        rect == bounded_rect(x, y, width, height),
        rect.x == x,
        rect.y == y,
        rect.width <= width,
        rect.height <= height,
        rect.width * rect.height <= u16::MAX,
        width * height <= u16::MAX ==> rect.width == width && rect.height == height,
{
    let rect = tui::layout::Rect::new(x, y, width, height);
    Rect { x: rect.x, y: rect.y, width: rect.width, height: rect.height }
}

/// The colour that a colour of `tui` stands for: the variant of the same name with the same fields.
pub uninterp spec fn color_value(color: TuiColor) -> CellColor;

/// The colour of `tui` that `color` stands for: `tui::style::Color` has the same variants.
#[verifier::external_body]
fn tui_color(color: CellColor) -> (result: TuiColor)
    ensures
        color_value(result) == color,
{
    match color {
        CellColor::Reset => TuiColor::Reset, CellColor::Black => TuiColor::Black,
        CellColor::Red => TuiColor::Red, CellColor::Green => TuiColor::Green,
        CellColor::Yellow => TuiColor::Yellow, CellColor::Blue => TuiColor::Blue,
        CellColor::Magenta => TuiColor::Magenta, CellColor::Cyan => TuiColor::Cyan,
        CellColor::Gray => TuiColor::Gray, CellColor::DarkGray => TuiColor::DarkGray,
        CellColor::LightRed => TuiColor::LightRed, CellColor::LightGreen => TuiColor::LightGreen,
        CellColor::LightYellow => TuiColor::LightYellow, CellColor::LightBlue => TuiColor::LightBlue,
        CellColor::LightMagenta => TuiColor::LightMagenta, CellColor::LightCyan => TuiColor::LightCyan,
        CellColor::White => TuiColor::White, CellColor::Rgb(r, g, b) => TuiColor::Rgb(r, g, b),
        CellColor::Indexed(i) => TuiColor::Indexed(i),
    }
}

/// The colour that a value of `tui::style::Color` stands for.
#[verifier::external_body]
fn plain_color(color: TuiColor) -> (result: CellColor)
    ensures
        result == color_value(color),
{
    match color {
        TuiColor::Reset => CellColor::Reset, TuiColor::Black => CellColor::Black,
        TuiColor::Red => CellColor::Red, TuiColor::Green => CellColor::Green,
        TuiColor::Yellow => CellColor::Yellow, TuiColor::Blue => CellColor::Blue,
        TuiColor::Magenta => CellColor::Magenta, TuiColor::Cyan => CellColor::Cyan,
        TuiColor::Gray => CellColor::Gray, TuiColor::DarkGray => CellColor::DarkGray,
        TuiColor::LightRed => CellColor::LightRed, TuiColor::LightGreen => CellColor::LightGreen,
        TuiColor::LightYellow => CellColor::LightYellow, TuiColor::LightBlue => CellColor::LightBlue,
        TuiColor::LightMagenta => CellColor::LightMagenta, TuiColor::LightCyan => CellColor::LightCyan,
        TuiColor::White => CellColor::White, TuiColor::Rgb(r, g, b) => CellColor::Rgb(r, g, b),
        TuiColor::Indexed(i) => CellColor::Indexed(i),
    }
}

/// What one cell shows.
#[verifier::ext_equal]
pub struct CellView {
    pub symbol: Seq<char>,
    pub fg: CellColor,
    pub bg: CellColor,
    pub modifier: u16,
}

impl CellView {
    /// A space in the terminal's own colours.
    pub open spec fn blank() -> CellView {
        CellView {
            symbol: seq![' '],
            fg: CellColor::Reset,
            bg: CellColor::Reset,
            modifier: 0,
        }
    }

    /// The cell with the changes of `style` made to it.
    pub open spec fn styled(self, style: Style) -> CellView {
        CellView {
            symbol: self.symbol,
            fg: match style.fg {
                Some(color) => color,
                None => self.fg,
            },
            bg: match style.bg {
                Some(color) => color,
                None => self.bg,
            },
            modifier: (self.modifier | (style.add_modifier & MODIFIERS)) & !(style.sub_modifier
                & MODIFIERS),
        }
    }

    /// What the cell shows takes up no more than one column.
    pub open spec fn narrow(self) -> bool {
        columns(self.symbol) <= 1
    }
}

/// A blank cell shows a space and nothing else.
pub proof fn lemma_blank_shows_nothing()
    ensures
        CellView::blank().symbol == seq![' '],
        CellView::blank().fg == CellColor::Reset,
        CellView::blank().bg == CellColor::Reset,
        CellView::blank().modifier == 0,
{
}

/// A style changes the look of a cell and not what it shows. A colour that the style has is taken,
/// one that it has not is kept, and a modifier is on where the style switches it on, or it was on
/// and stays so, and the style does not switch it off.
pub proof fn lemma_style_is_applied(cell: CellView, style: Style, bit: u16)
    requires
        bit & 0x1ff == bit,
    ensures
        cell.styled(style).symbol == cell.symbol,
        style.fg matches Some(color) ==> cell.styled(style).fg == color,
        style.fg is None ==> cell.styled(style).fg == cell.fg,
        style.bg matches Some(color) ==> cell.styled(style).bg == color,
        style.bg is None ==> cell.styled(style).bg == cell.bg,
        style.sub_modifier & bit == bit ==> cell.styled(style).modifier & bit == 0,
        style.sub_modifier & bit == 0 && style.add_modifier & bit == bit ==> cell.styled(
            style,
        ).modifier & bit == bit,
        style.sub_modifier & bit == 0 && style.add_modifier & bit == 0 ==> cell.styled(
            style,
        ).modifier & bit == cell.modifier & bit,
{
    let (was, on, off) = (cell.modifier, style.add_modifier, style.sub_modifier);
    let now = cell.styled(style).modifier;
    assert(now == (was | (on & 0x1ff)) & !(off & 0x1ff));
    assert(off & bit == bit ==> now & bit == 0) by (bit_vector)
        requires
            now == (was | (on & 0x1ff)) & !(off & 0x1ff),
            bit & 0x1ff == bit,
    ;
    assert(off & bit == 0 && on & bit == bit ==> now & bit == bit) by (bit_vector)
        requires
            now == (was | (on & 0x1ff)) & !(off & 0x1ff),
            bit & 0x1ff == bit,
    ;
    assert(off & bit == 0 && on & bit == 0 ==> now & bit == was & bit) by (bit_vector)
        requires
            now == (was | (on & 0x1ff)) & !(off & 0x1ff),
            bit & 0x1ff == bit,
    ;
}

/// The cells of a grid by column and row.
pub type Cells = Map<(int, int), CellView>;

/// Every character is one of printable ASCII.
pub open spec fn is_printable_ascii(text: Seq<char>) -> bool {
    forall|i: int| 0 <= i < text.len() ==> ' ' <= #[trigger] text[i] <= '~'
}

/// What `tui::text::Span::width` returns for a span of this text: the columns that it takes up by
/// Unicode's tables.
pub uninterp spec fn unicode_width(text: Seq<char>) -> nat;

/// The symbols that `tui::text::Span::styled_graphemes` yields for a span of this text: its
/// grapheme clusters, without those that are a newline, which takes up no column.
pub uninterp spec fn unicode_graphemes(text: Seq<char>) -> Seq<Seq<char>>;

/// The columns that a text takes up.
pub open spec fn columns(text: Seq<char>) -> nat {
    if is_printable_ascii(text) {
        text.len()
    } else {
        unicode_width(text)
    }
}

/// The text is one grapheme, other than a newline.
pub open spec fn is_grapheme(text: Seq<char>) -> bool {
    if is_printable_ascii(text) {
        text.len() == 1
    } else {
        unicode_graphemes(text) == seq![text]
    }
}

/// The graphemes of a text, but for newlines.
pub open spec fn graphemes_of(text: Seq<char>) -> Seq<Seq<char>> {
    if is_printable_ascii(text) {
        text.map_values(|c: char| seq![c])
    } else {
        unicode_graphemes(text)
    }
}

/// The columns that a list of graphemes takes up.
pub open spec fn columns_of(graphemes: Seq<Seq<char>>) -> nat
    decreases graphemes.len(),
{
    if graphemes.len() == 0 {
        0
    } else {
        columns_of(graphemes.drop_last()) + columns(graphemes.last())
    }
}

/// One more grapheme takes up its columns more.
pub proof fn lemma_columns_add_up(graphemes: Seq<Seq<char>>, k: int)
    requires
        0 <= k < graphemes.len(),
    ensures
        columns_of(graphemes.take(k + 1)) == columns_of(graphemes.take(k)) + columns(graphemes[k]),
{
    assert(graphemes.take(k + 1).drop_last() == graphemes.take(k));
}

/// In printable ASCII each character takes up a column.
pub proof fn lemma_ascii_columns(text: Seq<char>, k: int)
    requires
        is_printable_ascii(text),
        0 <= k <= text.len(),
    ensures
        columns_of(graphemes_of(text).take(k)) == k,
    decreases k,
{
    if k > 0 {
        lemma_ascii_columns(text, k - 1);
        lemma_columns_add_up(graphemes_of(text), k - 1);
        assert(is_printable_ascii(seq![text[k - 1]]));
    }
}

/// The smaller of two numbers.
pub open spec fn least(a: int, b: int) -> int {
    if a < b {
        a
    } else {
        b
    }
}

/// The columns that those of the graphemes take up which fit in `room` columns, one after another.
pub open spec fn fitting_columns(graphemes: Seq<Seq<char>>, room: int) -> nat
    decreases graphemes.len(),
{
    if graphemes.len() == 0 {
        0
    } else if columns_of(graphemes) <= room {
        columns_of(graphemes)
    } else {
        fitting_columns(graphemes.drop_last(), room)
    }
}

/// The columns that a text takes up where there are `room` of them.
pub open spec fn reach(text: Seq<char>, room: int) -> int {
    if is_printable_ascii(text) {
        least(text.len() as int, room)
    } else {
        fitting_columns(unicode_graphemes(text), room) as int
    }
}

/// `tui::text::Span::width`: the columns that the text takes up, one for each character of printable
/// ASCII.
#[verifier::external_body]
fn span_width(text: &str) -> (width: usize)
    ensures
        is_printable_ascii(text@) ==> width == text@.len(),
        !is_printable_ascii(text@) ==> width == unicode_width(text@),
{
    tui::text::Span::raw(text).width()
}

/// `tui::text::Span::styled_graphemes`: the grapheme clusters of the text but for newlines. In
/// printable ASCII each character is one.
#[verifier::external_body]
fn span_graphemes(text: &str) -> (graphemes: Vec<String>)
    ensures
        is_printable_ascii(text@) ==> graphemes@.map_values(|g: String| g@) == graphemes_of(text@),
        !is_printable_ascii(text@) ==> graphemes@.map_values(|g: String| g@) == unicode_graphemes(
            text@,
        ),
{
    let span = tui::text::Span::raw(text);
    let graphemes = span.styled_graphemes(TuiStyle::default());
    graphemes.map(|grapheme| grapheme.symbol.to_string()).collect()
}

/// The text is one grapheme that takes up `width` columns of the screen.
pub fn is_grapheme_of_width(text: &str, width: u16) -> (regular: bool)
    ensures
        regular == (is_grapheme(text@) && columns(text@) == width),
{
    let graphemes = span_graphemes(text);
    let ghost contents = graphemes@.map_values(|g: String| g@);
    assert(contents.len() == graphemes.len());
    if graphemes.len() != 1 {
        return false;
    }
    assert(contents =~= seq![graphemes@[0]@]);
    let whole = graphemes[0] == text.to_owned();
    proof {
        if is_printable_ascii(text@) {
            assert(text@ =~= seq![text@[0]]);
            assert(contents[0] == text@);
        } else if whole {
            assert(unicode_graphemes(text@) == seq![text@]);
        } else {
            assert(seq![text@][0] == text@);
            assert(contents[0] != text@);
        }
    }
    whole && span_width(text) == width as usize
}

/// Every cell is narrow.
pub open spec fn all_narrow(cells: Cells) -> bool {
    forall|p: (int, int)| #[trigger] cells.dom().contains(p) ==> cells[p].narrow()
}

/// No cell shows anything wider than two columns.
pub open spec fn at_most_two_wide(cells: Cells) -> bool {
    forall|p: (int, int)| #[trigger] cells.dom().contains(p) ==> columns(cells[p].symbol) <= 2
}

/// Blank cells everywhere in `area`.
pub open spec fn blank_cells(area: Rect) -> Cells {
    Map::new(|p: (int, int)| area.covers(p), |p: (int, int)| CellView::blank())
}

/// `cells` with the changes of `style` made to those in `rect`.
pub open spec fn styled_cells(cells: Cells, rect: Rect, style: Style) -> Cells {
    cells.map_entries(
        |p: (int, int), cell: CellView| if rect.covers(p) { cell.styled(style) } else { cell },
    )
}

/// `cells` with printable ASCII written from column `x` of row `y` on, one character to a cell, up
/// to `limit` characters and not past the column before `right`.
pub open spec fn ascii_cells(
    cells: Cells,
    right: int,
    x: int,
    y: int,
    text: Seq<char>,
    limit: int,
    style: Style,
) -> Cells {
    cells.map_entries(
        |p: (int, int), cell: CellView|
            if p.1 == y && x <= p.0 < right && p.0 - x < text.len() && p.0 - x < limit {
                CellView { symbol: seq![text[p.0 - x]], ..cell.styled(style) }
            } else {
                cell
            },
    )
}

/// `cells` with a grapheme written at (`x`, `y`): the cell there shows it, and those that it reaches
/// over are blank.
pub open spec fn grapheme_cells(
    cells: Cells,
    x: int,
    y: int,
    grapheme: Seq<char>,
    style: Style,
) -> Cells {
    cells.map_entries(
        |p: (int, int), cell: CellView|
            if p == (x, y) {
                CellView { symbol: grapheme, ..cell.styled(style) }
            } else if p.1 == y && x < p.0 < x + columns(grapheme) {
                CellView::blank()
            } else {
                cell
            },
    )
}

/// `cells` with graphemes written from column `x` of row `y` on. Each stands behind the columns of
/// all that come before it. One that takes up no column, or that does not end within `room` columns,
/// is not written; what follows the first that does not fit does not fit either.
pub open spec fn written_cells(
    cells: Cells,
    x: int,
    y: int,
    graphemes: Seq<Seq<char>>,
    room: int,
    style: Style,
) -> Cells
    decreases graphemes.len(),
{
    if graphemes.len() == 0 {
        cells
    } else {
        let before = graphemes.drop_last();
        let written = written_cells(cells, x, y, before, room, style);
        if columns(graphemes.last()) > 0 && columns_of(graphemes) <= room {
            grapheme_cells(written, x + columns_of(before), y, graphemes.last(), style)
        } else {
            written
        }
    }
}

/// `after` shows the graphemes over `before`, one after another from column `x` of row `y` on, as far
/// as they fit in `room` columns. Those that take up no column are left out.
pub open spec fn shows_graphemes(
    before: Cells,
    after: Cells,
    x: int,
    y: int,
    graphemes: Seq<Seq<char>>,
    room: int,
    style: Style,
) -> bool {
    forall|k: int|
        0 <= k < graphemes.len() && columns(#[trigger] graphemes[k]) > 0 && columns_of(
            graphemes.take(k + 1),
        ) <= room ==> {
            let column = x + columns_of(graphemes.take(k));
            &&& before.dom().contains((column, y)) ==> after[(column, y)] == (CellView {
                symbol: graphemes[k],
                ..before[(column, y)].styled(style)
            })
            &&& forall|c: int|
                column < c < column + columns(graphemes[k]) && before.dom().contains((c, y))
                    ==> #[trigger] after[(c, y)] == CellView::blank()
        }
}

/// Graphemes are shown over every grid that has the same cells where they stand.
pub proof fn lemma_graphemes_stay(
    before: Cells,
    after: Cells,
    other_before: Cells,
    other_after: Cells,
    x: int,
    y: int,
    graphemes: Seq<Seq<char>>,
    room: int,
    style: Style,
)
    requires
        shows_graphemes(before, after, x, y, graphemes, room, style),
        forall|c: int|
            x <= c < x + room && #[trigger] other_before.dom().contains((c, y)) ==> {
                &&& before.dom().contains((c, y))
                &&& other_before[(c, y)] == before[(c, y)]
                &&& other_after[(c, y)] == after[(c, y)]
            },
    ensures
        shows_graphemes(other_before, other_after, x, y, graphemes, room, style),
{
    assert forall|k: int|
        0 <= k < graphemes.len() && columns(#[trigger] graphemes[k]) > 0 && columns_of(
            graphemes.take(k + 1),
        ) <= room implies {
        let column = x + columns_of(graphemes.take(k));
        &&& other_before.dom().contains((column, y)) ==> other_after[(column, y)] == (CellView {
            symbol: graphemes[k],
            ..other_before[(column, y)].styled(style)
        })
        &&& forall|c: int|
            column < c < column + columns(graphemes[k]) && other_before.dom().contains((c, y))
                ==> #[trigger] other_after[(c, y)] == CellView::blank()
    } by {
        lemma_columns_add_up(graphemes, k);
        let column = x + columns_of(graphemes.take(k));
        assert forall|c: int|
            column < c < column + columns(graphemes[k]) && other_before.dom().contains((c, y))
            implies #[trigger] other_after[(c, y)] == CellView::blank() by {
            assert(after[(c, y)] == CellView::blank());
        }
    }
}

/// `cells`, of a grid over `area`, with `text` written from (`x`, `y`) on: at most `limit` columns
/// of it, and nothing past the right edge.
pub open spec fn printed_cells(
    cells: Cells,
    area: Rect,
    x: int,
    y: int,
    text: Seq<char>,
    limit: int,
    style: Style,
) -> Cells {
    if x >= area.x + area.width {
        cells
    } else if is_printable_ascii(text) {
        ascii_cells(cells, area.x + area.width, x, y, text, limit, style)
    } else {
        written_cells(
            cells,
            x,
            y,
            unicode_graphemes(text),
            least(limit, area.x + area.width - x),
            style,
        )
    }
}

/// Graphemes change only the cells that the fitting ones take up, and what they make of a cell does
/// not depend on the other cells.
pub proof fn lemma_written_cells(
    cells: Cells,
    other: Cells,
    x: int,
    y: int,
    graphemes: Seq<Seq<char>>,
    room: int,
    style: Style,
)
    ensures
        fitting_columns(graphemes, room) <= columns_of(graphemes),
        same_outside(
            cells,
            written_cells(cells, x, y, graphemes, room, style),
            y,
            x,
            x + fitting_columns(graphemes, room),
        ),
        forall|p: (int, int)|
            #![trigger written_cells(cells, x, y, graphemes, room, style)[p]]
            cells.dom().contains(p) && other.dom().contains(p) && cells[p] == other[p]
                ==> written_cells(cells, x, y, graphemes, room, style)[p] == written_cells(
                other,
                x,
                y,
                graphemes,
                room,
                style,
            )[p],
    decreases graphemes.len(),
{
    if graphemes.len() > 0 {
        let before = graphemes.drop_last();
        lemma_written_cells(cells, other, x, y, before, room, style);
        lemma_written_cells(other, cells, x, y, before, room, style);
        assert(written_cells(cells, x, y, graphemes, room, style).dom() =~= cells.dom());
    }
}

/// Grapheme `k` is shown in its place, if it fits.
proof fn lemma_grapheme_is_written(
    cells: Cells,
    x: int,
    y: int,
    graphemes: Seq<Seq<char>>,
    room: int,
    style: Style,
    k: int,
)
    requires
        0 <= k < graphemes.len(),
        columns(graphemes[k]) > 0,
        columns_of(graphemes.take(k + 1)) <= room,
    ensures
        columns_of(graphemes.take(k + 1)) <= columns_of(graphemes),
        ({
            let column = x + columns_of(graphemes.take(k));
            let written = written_cells(cells, x, y, graphemes, room, style);
            &&& cells.dom().contains((column, y)) ==> written[(column, y)] == (CellView {
                symbol: graphemes[k],
                ..cells[(column, y)].styled(style)
            })
            &&& forall|c: int|
                column < c < column + columns(graphemes[k]) && cells.dom().contains((c, y))
                    ==> #[trigger] written[(c, y)] == CellView::blank()
        }),
    decreases graphemes.len(),
{
    let before = graphemes.drop_last();
    lemma_columns_add_up(graphemes, k);
    lemma_written_cells(cells, cells, x, y, before, room, style);
    if k < graphemes.len() - 1 {
        assert(before.take(k) == graphemes.take(k));
        assert(before.take(k + 1) == graphemes.take(k + 1));
        lemma_grapheme_is_written(cells, x, y, before, room, style, k);
    } else {
        assert(graphemes.take(k) == before);
        assert(graphemes.take(k + 1) == graphemes);
    }
}

/// Text changes only the cells that it takes up, it is shown grapheme by grapheme as far as it fits,
/// and what it makes of a cell does not depend on the other cells.
pub proof fn lemma_printed_cells(
    cells: Cells,
    other: Cells,
    area: Rect,
    x: int,
    y: int,
    text: Seq<char>,
    limit: int,
    style: Style,
)
    ensures
        same_outside(
            cells,
            printed_cells(cells, area, x, y, text, limit, style),
            y,
            x,
            x + reach(text, least(limit, area.x + area.width - x)),
        ),
        shows_graphemes(
            cells,
            printed_cells(cells, area, x, y, text, limit, style),
            x,
            y,
            graphemes_of(text),
            least(limit, area.x + area.width - x),
            style,
        ),
        forall|p: (int, int)|
            #![trigger printed_cells(cells, area, x, y, text, limit, style)[p]]
            cells.dom().contains(p) && other.dom().contains(p) && cells[p] == other[p]
                ==> printed_cells(cells, area, x, y, text, limit, style)[p] == printed_cells(
                other,
                area,
                x,
                y,
                text,
                limit,
                style,
            )[p],
{
    let graphemes = graphemes_of(text);
    let room = least(limit, area.x + area.width - x);
    lemma_written_cells(cells, other, x, y, graphemes, room, style);
    assert(printed_cells(cells, area, x, y, text, limit, style).dom() =~= cells.dom());
    assert forall|k: int|
        0 <= k < graphemes.len() && columns(#[trigger] graphemes[k]) > 0 implies columns_of(
        graphemes.take(k + 1),
    ) > 0 by {
        lemma_columns_add_up(graphemes, k);
    }
    if is_printable_ascii(text) {
        assert forall|k: int| 0 <= k <= graphemes.len() implies columns_of(
            #[trigger] graphemes.take(k),
        ) == k by {
            lemma_ascii_columns(text, k);
        }
        assert forall|k: int| 0 <= k < graphemes.len() implies columns(#[trigger] graphemes[k])
            == 1 by {
            lemma_columns_add_up(graphemes, k);
        }
    } else {
        assert forall|k: int|
            0 <= k < graphemes.len() && columns(#[trigger] graphemes[k]) > 0 && columns_of(
                graphemes.take(k + 1),
            ) <= room && x < area.x + area.width implies {
            let column = x + columns_of(graphemes.take(k));
            let written = written_cells(cells, x, y, graphemes, room, style);
            &&& cells.dom().contains((column, y)) ==> written[(column, y)] == (CellView {
                symbol: graphemes[k],
                ..cells[(column, y)].styled(style)
            })
            &&& forall|c: int|
                column < c < column + columns(graphemes[k]) && cells.dom().contains((c, y))
                    ==> #[trigger] written[(c, y)] == CellView::blank()
        } by {
            lemma_grapheme_is_written(cells, x, y, graphemes, room, style, k);
        }
    }
}

/// A single grapheme takes up its own columns.
pub proof fn lemma_one_grapheme(grapheme: Seq<char>)
    requires
        is_grapheme(grapheme),
    ensures
        graphemes_of(grapheme) == seq![grapheme],
        columns_of(graphemes_of(grapheme)) == columns(grapheme),
{
    if is_printable_ascii(grapheme) {
        assert(seq![grapheme[0]] == grapheme);
        assert(graphemes_of(grapheme) == seq![grapheme]);
    }
    let graphemes = graphemes_of(grapheme);
    assert(graphemes.drop_last() == Seq::<Seq<char>>::empty());
    assert(graphemes.last() == grapheme);
    assert(columns_of(graphemes.drop_last()) == 0);
}

/// Where there is any room at all, a text takes up no more of it than there is.
pub proof fn lemma_reach_fits(text: Seq<char>, room: int)
    ensures
        reach(text, room) <= if room > 0 { room } else { 0 },
{
    if !is_printable_ascii(text) {
        lemma_fitting_columns(unicode_graphemes(text), room);
    }
}

/// The columns that fit are no more than there are.
proof fn lemma_fitting_columns(graphemes: Seq<Seq<char>>, room: int)
    ensures
        fitting_columns(graphemes, room) <= if room > 0 { room } else { 0 },
        fitting_columns(graphemes, room) <= columns_of(graphemes),
    decreases graphemes.len(),
{
    if graphemes.len() > 0 {
        lemma_fitting_columns(graphemes.drop_last(), room);
    }
}

/// A text takes up no more than the columns of its graphemes.
pub proof fn lemma_reach_is_bounded(text: Seq<char>, room: int)
    ensures
        reach(text, room) <= columns_of(graphemes_of(text)),
{
    if is_printable_ascii(text) {
        lemma_ascii_columns(text, text.len() as int);
        assert(graphemes_of(text).take(text.len() as int) == graphemes_of(text));
    } else {
        lemma_fitting_columns(unicode_graphemes(text), room);
    }
}

/// A single grapheme that there is room for is shown in one cell, with blank ones where it is wider
/// than a column.
pub proof fn lemma_grapheme_is_printed(
    cells: Cells,
    area: Rect,
    x: int,
    y: int,
    grapheme: Seq<char>,
    limit: int,
    style: Style,
)
    requires
        is_grapheme(grapheme),
        1 <= columns(grapheme) <= limit,
        x + columns(grapheme) <= area.x + area.width,
    ensures
        ({
            let printed = printed_cells(cells, area, x, y, grapheme, limit, style);
            &&& cells.dom().contains((x, y)) ==> printed[(x, y)] == (CellView {
                symbol: grapheme,
                ..cells[(x, y)].styled(style)
            })
            &&& forall|c: int|
                x < c < x + columns(grapheme) && cells.dom().contains((c, y)) ==> #[trigger] printed[(
                    c,
                    y,
                )] == CellView::blank()
        }),
{
    let graphemes = graphemes_of(grapheme);
    lemma_printed_cells(cells, cells, area, x, y, grapheme, limit, style);
    lemma_one_grapheme(grapheme);
    assert(graphemes[0] == grapheme);
    assert(graphemes.take(0) == Seq::<Seq<char>>::empty());
    assert(graphemes.take(1) == graphemes);
    assert(columns_of(graphemes.take(0)) == 0);
}

/// The two grids have the same cells but for columns `from` to `to` (excluded) of row `y`.
pub open spec fn same_outside(before: Cells, after: Cells, y: int, from: int, to: int) -> bool {
    &&& after.dom() == before.dom()
    &&& forall|p: (int, int)|
        #![trigger after[p]]
        before.dom().contains(p) && !(p.1 == y && from <= p.0 < to) ==> after[p] == before[p]
}

/// The rows from `top` up to `bottom` are the only ones in which the two grids differ.
pub open spec fn same_outside_rows(before: Cells, after: Cells, top: int, bottom: int) -> bool {
    &&& after.dom() == before.dom()
    &&& forall|p: (int, int)|
        #![trigger after[p]]
        before.dom().contains(p) && !(top <= p.1 < bottom) ==> after[p] == before[p]
}

/// A change to one cell of the screen.
#[verifier::ext_equal]
pub struct UpdateView {
    pub x: int,
    pub y: int,
    pub cell: CellView,
}

/// Each update sets a cell to what `after` shows there, and they come row by row, each row from
/// left to right.
pub open spec fn updates_lead_to(updates: Seq<UpdateView>, after: Cells) -> bool {
    &&& forall|k: int|
        0 <= k < updates.len() ==> {
            let u = #[trigger] updates[k];
            after.dom().contains((u.x, u.y)) && u.cell == after[(u.x, u.y)]
        }
    &&& forall|j: int, k: int|
        0 <= j < k < updates.len() ==> {
            let u = #[trigger] updates[j];
            let v = #[trigger] updates[k];
            u.y < v.y || u.y == v.y && u.x < v.x
        }
}

/// The cell before `p`, which is the last one of the row above where `p` starts a row, shows
/// something wider than a column, and so reaches over `p`.
pub open spec fn follows_wide(cells: Cells, p: (int, int)) -> bool {
    exists|q: (int, int)| #[trigger]
        cells.dom().contains(q) && !cells[q].narrow() && (q == (p.0 - 1, p.1) || p.0 == 0 && q.1
            == p.1 - 1 && !cells.dom().contains((q.0 + 1, q.1)))
}

/// The number of cells from `q` on to `p` in a grid of `width` columns, row by row.
pub open spec fn distance(width: int, q: (int, int), p: (int, int)) -> int {
    (p.1 - q.1) * width + p.0 - q.0
}

/// A cell before `p` shows something, in `before` or in `after`, that reaches over it, from one row
/// into the next if need be.
pub open spec fn is_disturbed(before: Cells, after: Cells, width: int, p: (int, int)) -> bool {
    exists|q: (int, int)| #[trigger]
        after.dom().contains(q) && 0 < distance(width, q, p) && (distance(width, q, p) < columns(
            before[q].symbol,
        ) || distance(width, q, p) < columns(after[q].symbol))
}

/// The cells that are updated are those that differ or are disturbed, but for those right behind a
/// wide one.
pub open spec fn updates_are_due(
    updates: Seq<UpdateView>,
    before: Cells,
    after: Cells,
    width: int,
) -> bool {
    forall|p: (int, int)| #[trigger]
        after.dom().contains(p) ==> (is_updated(updates, p) <==> (before[p] != after[p]
            || is_disturbed(before, after, width, p)) && !follows_wide(after, p))
}

/// There is but one list of updates that leads to `after` and holds those that are due.
pub proof fn lemma_updates_are_determined(
    updates: Seq<UpdateView>,
    others: Seq<UpdateView>,
    before: Cells,
    after: Cells,
    width: int,
)
    requires
        updates_lead_to(updates, after),
        updates_lead_to(others, after),
        updates_are_due(updates, before, after, width),
        updates_are_due(others, before, after, width),
    ensures
        updates == others,
{
    assert forall|p: (int, int)| #[trigger] is_updated(updates, p) implies is_updated(others, p) by {
        let k = choose|k: int|
            0 <= k < updates.len() && (#[trigger] updates[k]).x == p.0 && updates[k].y == p.1;
        assert(after.dom().contains((updates[k].x, updates[k].y)));
        assert(p == (updates[k].x, updates[k].y));
    }
    assert forall|p: (int, int)| #[trigger] is_updated(others, p) implies is_updated(updates, p) by {
        let k = choose|k: int|
            0 <= k < others.len() && (#[trigger] others[k]).x == p.0 && others[k].y == p.1;
        assert(after.dom().contains((others[k].x, others[k].y)));
        assert(p == (others[k].x, others[k].y));
    }
    lemma_same_places(updates, others, after);
}

/// Two lists of updates to the same cells that lead to the same grid are the same.
proof fn lemma_same_places(updates: Seq<UpdateView>, others: Seq<UpdateView>, after: Cells)
    requires
        updates_lead_to(updates, after),
        updates_lead_to(others, after),
        forall|p: (int, int)| #[trigger] is_updated(updates, p) ==> is_updated(others, p),
        forall|p: (int, int)| #[trigger] is_updated(others, p) ==> is_updated(updates, p),
    ensures
        updates == others,
    decreases updates.len(),
{
    if updates.len() == 0 {
        if others.len() > 0 {
            assert(is_updated(others, (others[0].x, others[0].y)));
        }
        assert(updates =~= others);
    } else {
        let u = updates.last();
        assert(is_updated(updates, (u.x, u.y)));
        let k = choose|k: int|
            0 <= k < others.len() && (#[trigger] others[k]).x == u.x && others[k].y == u.y;
        let v = others.last();
        assert(is_updated(others, (v.x, v.y)));
        let m = choose|m: int|
            0 <= m < updates.len() && (#[trigger] updates[m]).x == v.x && updates[m].y == v.y;
        assert(k == others.len() - 1) by {
            assert(updates[m] == updates[m] && others[k] == others[k]);
            if m < updates.len() - 1 {
                assert(updates[m].y < u.y || updates[m].y == u.y && updates[m].x < u.x);
            }
        }
        assert(u == v);
        let (first, second) = (updates.drop_last(), others.drop_last());
        assert forall|p: (int, int)| #[trigger] is_updated(first, p) implies is_updated(
            second,
            p,
        ) by {
            let i = choose|i: int|
                0 <= i < first.len() && (#[trigger] first[i]).x == p.0 && first[i].y == p.1;
            assert(updates[i] == first[i]);
            assert(is_updated(updates, p));
            let j = choose|j: int|
                0 <= j < others.len() && (#[trigger] others[j]).x == p.0 && others[j].y == p.1;
            assert(updates[updates.len() - 1] == u);
            assert(second[j] == others[j]);
        }
        assert forall|p: (int, int)| #[trigger] is_updated(second, p) implies is_updated(
            first,
            p,
        ) by {
            let i = choose|i: int|
                0 <= i < second.len() && (#[trigger] second[i]).x == p.0 && second[i].y == p.1;
            assert(others[i] == second[i]);
            assert(is_updated(others, p));
            let j = choose|j: int|
                0 <= j < updates.len() && (#[trigger] updates[j]).x == p.0 && updates[j].y == p.1;
            assert(others[others.len() - 1] == v);
            assert(first[j] == updates[j]);
        }
        assert(updates_lead_to(first, after)) by {
            assert(forall|i: int| 0 <= i < first.len() ==> #[trigger] first[i] == updates[i]);
        }
        assert(updates_lead_to(second, after)) by {
            assert(forall|i: int| 0 <= i < second.len() ==> #[trigger] second[i] == others[i]);
        }
        lemma_same_places(first, second, after);
        assert(updates =~= first.push(u));
        assert(others =~= second.push(v));
    }
}

/// Where all cells are narrow, only those that differ are updated. Where the grids are the same and
/// no cell is wider than two columns, none is.
pub proof fn lemma_due_updates_are_changes(
    updates: Seq<UpdateView>,
    before: Cells,
    after: Cells,
    area: Rect,
)
    requires
        area.x == 0,
        area.y == 0,
        forall|p: (int, int)| #[trigger] after.dom().contains(p) <==> area.covers(p),
        before.dom() == after.dom(),
        updates_lead_to(updates, after),
        updates_are_due(updates, before, after, area.width as int),
    ensures
        all_narrow(before) && all_narrow(after) ==> updates_are_changes(updates, before, after),
        before == after && at_most_two_wide(after) ==> updates.len() == 0,
{
    assert forall|k: int| 0 <= k < updates.len() && all_narrow(before) && all_narrow(after) implies {
        let u = #[trigger] updates[k];
        before[(u.x, u.y)] != after[(u.x, u.y)]
    } by {
        let p = (updates[k].x, updates[k].y);
        assert(is_updated(updates, p));
        assert(after.dom().contains(p));
    }
    if before == after && at_most_two_wide(after) && updates.len() > 0 {
        let p = (updates[0].x, updates[0].y);
        assert(is_updated(updates, p));
        assert(after.dom().contains(p));
        let width = area.width as int;
        let q = choose|q: (int, int)| #[trigger]
            after.dom().contains(q) && 0 < distance(width, q, p) && (distance(width, q, p)
                < columns(before[q].symbol) || distance(width, q, p) < columns(after[q].symbol));
        lemma_next_cell(width, q, p);
        assert(follows_wide(after, p));
    }
}

/// The cell right before `p` is in its row, or ends the row above.
proof fn lemma_next_cell(width: int, q: (int, int), p: (int, int))
    by (nonlinear_arith)
    requires
        0 <= q.0 < width,
        0 <= p.0 < width,
        (p.1 - q.1) * width + p.0 - q.0 == 1,
    ensures
        q == (p.0 - 1, p.1) || p.0 == 0 && q == (width - 1, p.1 - 1),
{
    let rows = p.1 - q.1;
    if rows >= 2 {
        assert(rows * width >= 2 * width);
    } else if rows <= -1 {
        assert(rows * width <= -width);
    }
}

/// Every cell in which `before` and `after` differ is updated, unless a wide one comes before it.
pub open spec fn updates_cover(updates: Seq<UpdateView>, before: Cells, after: Cells) -> bool {
    forall|p: (int, int)| #[trigger]
        after.dom().contains(p) && before[p] != after[p] && !follows_wide(after, p) ==> is_updated(
            updates,
            p,
        )
}

/// Some update is to the cell at `p`.
pub open spec fn is_updated(updates: Seq<UpdateView>, p: (int, int)) -> bool {
    exists|k: int|
        0 <= k < updates.len() && (#[trigger] updates[k]).x == p.0 && updates[k].y == p.1
}

/// A screen shows `frame`, but for cells that a wide one hides.
pub open spec fn shows(screen: Cells, frame: Cells) -> bool {
    &&& screen.dom() == frame.dom()
    &&& forall|p: (int, int)|
        #![trigger screen[p]]
        frame.dom().contains(p) && !follows_wide(frame, p) ==> screen[p] == frame[p]
}

/// A frame of narrow cells is shown whole.
pub proof fn lemma_narrow_frame_is_shown_whole(screen: Cells, frame: Cells)
    requires
        shows(screen, frame),
        all_narrow(frame),
    ensures
        screen == frame,
{
}

/// Only cells in which `before` and `after` differ are updated.
pub open spec fn updates_are_changes(
    updates: Seq<UpdateView>,
    before: Cells,
    after: Cells,
) -> bool {
    forall|k: int|
        0 <= k < updates.len() ==> {
            let u = #[trigger] updates[k];
            before[(u.x, u.y)] != after[(u.x, u.y)]
        }
}

/// What a screen that showed `cells` shows after the updates.
pub open spec fn updated_cells(cells: Cells, updates: Seq<UpdateView>) -> Cells
    decreases updates.len(),
{
    if updates.len() == 0 {
        cells
    } else {
        let u = updates.last();
        updated_cells(cells, updates.drop_last()).insert((u.x, u.y), u.cell)
    }
}

/// Updates that lead to `after` and cover the differences bring a screen from `before` to `after`.
pub proof fn lemma_updates_show_after(before: Cells, after: Cells, updates: Seq<UpdateView>)
    requires
        before.dom() == after.dom(),
        updates_lead_to(updates, after),
        updates_cover(updates, before, after),
    ensures
        shows(updated_cells(before, updates), after),
{
    lemma_updated_cells(before, after, updates);
}

/// Updates that lead to `after` set the cells that they are for to those of `after`, and no others.
proof fn lemma_updated_cells(before: Cells, after: Cells, updates: Seq<UpdateView>)
    requires
        before.dom() == after.dom(),
        updates_lead_to(updates, after),
    ensures
        updated_cells(before, updates).dom() == after.dom(),
        forall|p: (int, int)|
            #![trigger updated_cells(before, updates)[p]]
            after.dom().contains(p) ==> updated_cells(before, updates)[p] == if is_updated(
                updates,
                p,
            ) {
                after[p]
            } else {
                before[p]
            },
    decreases updates.len(),
{
    if updates.len() > 0 {
        let earlier = updates.drop_last();
        let u = updates.last();
        lemma_updated_cells(before, after, earlier);
        assert forall|p: (int, int)| #[trigger] after.dom().contains(p) implies is_updated(
            updates,
            p,
        ) == (is_updated(earlier, p) || p == (u.x, u.y)) by {
            if is_updated(earlier, p) {
                let k = choose|k: int|
                    0 <= k < earlier.len() && (#[trigger] earlier[k]).x == p.0 && earlier[k].y
                        == p.1;
                assert(updates[k] == earlier[k]);
            }
            if is_updated(updates, p) && p != (u.x, u.y) {
                let k = choose|k: int|
                    0 <= k < updates.len() && (#[trigger] updates[k]).x == p.0 && updates[k].y
                        == p.1;
                assert(earlier[k] == updates[k]);
            }
        }
    }
}

/// The cells of a buffer: at column `x` and row `y` what `Buffer::get(x, y)` holds.
pub uninterp spec fn buffer_cells(buffer: Buffer) -> Cells;

/// The field `area` of a buffer.
pub uninterp spec fn buffer_area(buffer: Buffer) -> Rect;

/// The buffer has a cell for each position of its area, and no position or count of cells goes
/// beyond `u16`.
pub open spec fn buffer_sized(buffer: Buffer) -> bool {
    let area = buffer_area(buffer);
    &&& forall|p: (int, int)| #[trigger]
        buffer_cells(buffer).dom().contains(p) <==> area.covers(p)
    &&& area.x + area.width <= u16::MAX
    &&& area.y + area.height <= u16::MAX
    &&& area.width * area.height <= u16::MAX
}

/// A style as `tui` takes it.
struct RawStyle {
    fg: Option<TuiColor>,
    bg: Option<TuiColor>,
    add_modifier: u16,
    sub_modifier: u16,
}

spec fn style_value(raw: RawStyle) -> Style {
    Style {
        fg: match raw.fg {
            Some(color) => Some(color_value(color)),
            None => None,
        },
        bg: match raw.bg {
            Some(color) => Some(color_value(color)),
            None => None,
        },
        add_modifier: raw.add_modifier,
        sub_modifier: raw.sub_modifier,
    }
}

fn raw_style(style: Style) -> (raw: RawStyle)
    ensures
        style_value(raw) == style,
{
    RawStyle {
        fg: match style.fg {
            Some(color) => Some(tui_color(color)),
            None => None,
        },
        bg: match style.bg {
            Some(color) => Some(tui_color(color)),
            None => None,
        },
        add_modifier: style.add_modifier,
        sub_modifier: style.sub_modifier,
    }
}

/// An update as `tui` hands it out.
struct RawUpdate {
    x: u16,
    y: u16,
    symbol: String,
    fg: TuiColor,
    bg: TuiColor,
    modifier: u16,
}

spec fn update_value(raw: RawUpdate) -> UpdateView {
    UpdateView {
        x: raw.x as int,
        y: raw.y as int,
        cell: CellView {
            symbol: raw.symbol@,
            fg: color_value(raw.fg),
            bg: color_value(raw.bg),
            modifier: raw.modifier,
        },
    }
}

spec fn update_values(raw: Seq<RawUpdate>) -> Seq<UpdateView> {
    raw.map_values(|u: RawUpdate| update_value(u))
}

/// `tui::buffer::Buffer::empty`: a buffer over `area` in which every cell is the default one, a
/// space without colours or modifiers.
#[verifier::external_body]
fn buffer_empty(area: Rect) -> (buffer: Buffer)
    requires
        area.width * area.height <= u16::MAX,
    ensures
        buffer_area(buffer) == area,
        buffer_cells(buffer) == blank_cells(area),
{
    Buffer::empty(tui::layout::Rect {
        x: area.x,
        y: area.y,
        width: area.width,
        height: area.height,
    })
}

/// `tui::buffer::Buffer::reset`: every cell becomes the default one again.
#[verifier::external_body]
fn buffer_reset(buffer: &mut Buffer)
    requires
        buffer_sized(*old(buffer)),
    ensures
        buffer_area(*final(buffer)) == buffer_area(*old(buffer)),
        buffer_cells(*final(buffer)) == blank_cells(buffer_area(*old(buffer))),
{
    buffer.reset();
}

/// `tui::buffer::Buffer::set_style`: the cells in `rect` get the colours that the style has, then
/// its added modifiers, and lose its subtracted ones. Bits that are no modifier are dropped. The
/// call panics where `rect` goes beyond the buffer.
#[verifier::external_body]
fn buffer_set_style(buffer: &mut Buffer, rect: Rect, style: RawStyle)
    requires
        buffer_sized(*old(buffer)),
        rect.within(buffer_area(*old(buffer))),
    ensures
        buffer_area(*final(buffer)) == buffer_area(*old(buffer)),
        buffer_cells(*final(buffer)) == styled_cells(
            buffer_cells(*old(buffer)),
            rect,
            style_value(style),
        ),
{
    let area = tui::layout::Rect {
        x: rect.x, y: rect.y, width: rect.width, height: rect.height,
    };
    let style = TuiStyle {
        fg: style.fg,
        bg: style.bg,
        add_modifier: Modifier::from_bits_truncate(style.add_modifier),
        sub_modifier: Modifier::from_bits_truncate(style.sub_modifier),
    };
    buffer.set_style(area, style);
}

/// `tui::buffer::Buffer::set_stringn`: writes the string grapheme by grapheme, each in as many
/// columns as it is wide, up to the first that does not fit in `width` columns and before the right
/// edge. The first column of each shows it, and the others are made blank. One that takes up no
/// column, as a newline, is passed over. In printable ASCII every character is a grapheme of one
/// column. The call panics where (`x`, `y`) is outside the buffer.
#[verifier::external_body]
fn buffer_set_stringn(
    buffer: &mut Buffer,
    x: u16,
    y: u16,
    string: &str,
    width: usize,
    style: RawStyle,
)
    requires
        buffer_sized(*old(buffer)),
        buffer_area(*old(buffer)).covers((x as int, y as int)),
    ensures
        buffer_area(*final(buffer)) == buffer_area(*old(buffer)),
        is_printable_ascii(string@) ==> buffer_cells(*final(buffer)) == ascii_cells(
            buffer_cells(*old(buffer)),
            buffer_area(*old(buffer)).x + buffer_area(*old(buffer)).width,
            x as int,
            y as int,
            string@,
            width as int,
            style_value(style),
        ),
        !is_printable_ascii(string@) ==> buffer_cells(*final(buffer)) == written_cells(
            buffer_cells(*old(buffer)),
            x as int,
            y as int,
            unicode_graphemes(string@),
            least(
                width as int,
                buffer_area(*old(buffer)).x + buffer_area(*old(buffer)).width - x,
            ),
            style_value(style),
        ),
{
    let style = TuiStyle {
        fg: style.fg,
        bg: style.bg,
        add_modifier: Modifier::from_bits_truncate(style.add_modifier),
        sub_modifier: Modifier::from_bits_truncate(style.sub_modifier),
    };
    buffer.set_stringn(x, y, string, width, style);
}

/// `tui::buffer::Buffer::diff`: the updates that lead from `before` to `after`. Each one carries a
/// cell of `after`, and they come in the order of the cells. A cell is updated where it differs, or
/// where one before it, in either grid, is wide enough to reach over it; but never where the one
/// right before it in `after` is wider than a column.
#[verifier::external_body]
fn buffer_diff(before: &Buffer, after: &Buffer) -> (updates: Vec<RawUpdate>)
    requires
        buffer_sized(*before),
        buffer_sized(*after),
        buffer_area(*before) == buffer_area(*after),
        buffer_area(*before).x == 0,
        buffer_area(*before).y == 0,
    ensures
        updates_lead_to(update_values(updates@), buffer_cells(*after)),
        updates_are_due(
            update_values(updates@),
            buffer_cells(*before),
            buffer_cells(*after),
            buffer_area(*after).width as int,
        ),
{
    let updates = before.diff(after);
    updates.into_iter().map(|(x, y, cell)| RawUpdate {
        x,
        y,
        symbol: cell.symbol.clone(),
        fg: cell.fg,
        bg: cell.bg,
        modifier: cell.modifier.bits(),
    }).collect()
}

/// What one cell is to show on the screen.
#[derive(Debug)]
pub struct Cell {
    pub symbol: String,
    pub fg: CellColor,
    pub bg: CellColor,
    pub modifier: u16,
}

impl View for Cell {
    type V = CellView;

    open spec fn view(&self) -> CellView {
        CellView { symbol: self.symbol@, fg: self.fg, bg: self.bg, modifier: self.modifier }
    }
}

/// A change to one cell of the screen.
#[derive(Debug)]
pub struct Update {
    pub x: u16,
    pub y: u16,
    pub cell: Cell,
}

impl View for Update {
    type V = UpdateView;

    open spec fn view(&self) -> UpdateView {
        UpdateView { x: self.x as int, y: self.y as int, cell: self.cell@ }
    }
}

/// The views of a list of updates.
pub open spec fn update_views(updates: Seq<Update>) -> Seq<UpdateView> {
    updates.map_values(|u: Update| u@)
}

/// A grid of cells.
pub struct Surface {
    area: Rect,
    buffer: Buffer,
}

impl View for Surface {
    type V = Cells;

    closed spec fn view(&self) -> Cells {
        buffer_cells(self.buffer)
    }
}

impl Surface {
    /// The part of the screen that the grid covers.
    pub closed spec fn area(self) -> Rect {
        self.area
    }

    /// The grid has a cell for each position of its area, which fits in 16-bit coordinates.
    pub closed spec fn wf(self) -> bool {
        buffer_sized(self.buffer) && buffer_area(self.buffer) == self.area
    }

    /// A grid has cells in its area and nowhere else.
    pub proof fn lemma_cells_fill_area(self)
        requires
            self.wf(),
        ensures
            forall|p: (int, int)| #[trigger] self@.dom().contains(p) <==> self.area().covers(p),
    {
    }

    /// A grid over `area` of blank cells.
    pub fn empty(area: Rect) -> (surface: Surface)
        requires
            area.x + area.width <= u16::MAX,
            area.y + area.height <= u16::MAX,
            area.width * area.height <= u16::MAX,
        ensures
            surface.wf(),
            surface.area() == area,
            surface@ == blank_cells(area),
    {
        Surface { area, buffer: buffer_empty(area) }
    }

    /// Makes every cell blank.
    pub fn reset(&mut self)
        requires
            old(self).wf(),
        ensures
            final(self).wf(),
            final(self).area() == old(self).area(),
            final(self)@ == blank_cells(old(self).area()),
    {
        buffer_reset(&mut self.buffer);
    }

    /// Makes the changes of `style` to the cells in `rect`.
    pub fn set_style(&mut self, rect: Rect, style: Style)
        requires
            old(self).wf(),
            rect.within(old(self).area()),
        ensures
            final(self).wf(),
            final(self).area() == old(self).area(),
            final(self)@ == styled_cells(old(self)@, rect, style),
    {
        buffer_set_style(&mut self.buffer, rect, raw_style(style));
    }

    /// Writes `string` from (`x`, `y`) on, as far as the right edge.
    pub fn set_string(&mut self, x: u16, y: u16, string: &str, style: Style)
        requires
            old(self).wf(),
            old(self).area().x <= x,
            old(self).area().y <= y < old(self).area().y + old(self).area().height,
        ensures
            final(self).wf(),
            final(self).area() == old(self).area(),
            final(self)@ == printed_cells(
                old(self)@,
                old(self).area(),
                x as int,
                y as int,
                string@,
                usize::MAX as int,
                style,
            ),
            same_outside(
                old(self)@,
                final(self)@,
                y as int,
                x as int,
                x + reach(string@, old(self).area().x + old(self).area().width - x),
            ),
            shows_graphemes(
                old(self)@,
                final(self)@,
                x as int,
                y as int,
                graphemes_of(string@),
                old(self).area().x + old(self).area().width - x,
                style,
            ),
    {
        self.set_stringn(x, y, string, usize::MAX, style);
    }

    /// Writes at most `width` columns of `string` from (`x`, `y`) on, as far as the right edge.
    /// Past the right edge nothing is written.
    pub fn set_stringn(&mut self, x: u16, y: u16, string: &str, width: usize, style: Style)
        requires
            old(self).wf(),
            old(self).area().x <= x,
            old(self).area().y <= y < old(self).area().y + old(self).area().height,
        ensures
            final(self).wf(),
            final(self).area() == old(self).area(),
            final(self)@ == printed_cells(
                old(self)@,
                old(self).area(),
                x as int,
                y as int,
                string@,
                width as int,
                style,
            ),
            same_outside(
                old(self)@,
                final(self)@,
                y as int,
                x as int,
                x + reach(
                    string@,
                    least(width as int, old(self).area().x + old(self).area().width - x),
                ),
            ),
            shows_graphemes(
                old(self)@,
                final(self)@,
                x as int,
                y as int,
                graphemes_of(string@),
                least(width as int, old(self).area().x + old(self).area().width - x),
                style,
            ),
    {
        proof {
            lemma_printed_cells(
                self@,
                self@,
                self.area(),
                x as int,
                y as int,
                string@,
                width as int,
                style,
            );
        }
        if x < self.area.x + self.area.width {
            buffer_set_stringn(&mut self.buffer, x, y, string, width, raw_style(style));
        }
    }

    /// The updates that lead from what `self` shows to what `after` shows.
    pub fn diff(&self, after: &Surface) -> (updates: Vec<Update>)
        requires
            self.wf(),
            after.wf(),
            self.area() == after.area(),
            self.area().x == 0,
            self.area().y == 0,
        ensures
            updates_lead_to(update_views(updates@), after@),
            updates_are_due(update_views(updates@), self@, after@, after.area().width as int),
            updates_cover(update_views(updates@), self@, after@),
            all_narrow(self@) && all_narrow(after@) ==> updates_are_changes(
                update_views(updates@),
                self@,
                after@,
            ),
            self@ == after@ && at_most_two_wide(after@) ==> updates@.len() == 0,
            // Each update is to a cell, and says what is to be seen there.
            forall|k: int|
                0 <= k < updates@.len() ==> ({
                    let cell = after@[((#[trigger] updates@[k]).x as int, updates@[k].y as int)];
                    &&& updates@[k].cell.symbol@ == cell.symbol
                    &&& updates@[k].cell.fg == cell.fg
                    &&& updates@[k].cell.bg == cell.bg
                    &&& updates@[k].cell.modifier == cell.modifier
                }),
    {
        let raw = buffer_diff(&self.buffer, &after.buffer);
        let mut updates: Vec<Update> = Vec::new();
        let mut i: usize = 0;
        while i < raw.len()
            invariant
                i <= raw.len(),
                updates.len() == i,
                forall|k: int|
                    0 <= k < i ==> (#[trigger] updates[k])@ == update_value(raw[k]),
            decreases raw.len() - i,
        {
            let update = &raw[i];
            updates.push(
                Update {
                    x: update.x,
                    y: update.y,
                    cell: Cell {
                        symbol: update.symbol.clone(),
                        fg: plain_color(update.fg),
                        bg: plain_color(update.bg),
                        modifier: update.modifier,
                    },
                },
            );
            i = i + 1;
        }
        assert(update_views(updates@) =~= update_values(raw@));
        assert forall|k: int| 0 <= k < updates@.len() implies ({
            let cell = after@[((#[trigger] updates@[k]).x as int, updates@[k].y as int)];
            &&& updates@[k].cell.symbol@ == cell.symbol
            &&& updates@[k].cell.fg == cell.fg
            &&& updates@[k].cell.bg == cell.bg
            &&& updates@[k].cell.modifier == cell.modifier
        }) by {
            assert(update_views(updates@)[k] == updates@[k]@);
        }
        proof {
            assert(self@.dom() =~= after@.dom());
            lemma_due_updates_are_changes(update_views(updates@), self@, after@, after.area());
        }
        updates
    }
}

} // verus!
