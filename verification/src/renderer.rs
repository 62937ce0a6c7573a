//! Draws the editor into a grid of cells, and finds out what to change on the screen.
use crate::completion::{
    asked_cells, clear_rows, completion_cells, completion_height, has_room, list_completions,
    panel_cells, prompt_cells, shows_completions,
};
use crate::cursor::{low_bits, mode_shape, Cursor, CursorShape};
use crate::document::{DocumentView, Mode};
use crate::layout::{
    bears, column_after, count_of, drawn_glyphs, glyphs, has_place, is_even, is_line, is_taken,
    lemma_columns_are_counted, lemma_glyph_is_seen, lemma_glyph_is_shown, lemma_glyph_stands,
    lemma_nothing_else_is_drawn, lemma_rest_is_untouched, lemma_same_domain, lemma_text_keeps_off,
    row_after, shown_rows, stays_within, widths_of, OFFSET,
};
use crate::line_numbers::{
    draw_line_numbers, lemma_line_number_is_seen, lemma_numbered_cells, line_count, numbered_cells,
};
use crate::prompt::{grid_rows, Prompt, BASE_WIDTH};
use crate::style::{CellColor, Style};
use crate::surface::{
    all_narrow, at_most_two_wide, blank_cells, bounded_rect, columns, columns_of, fits,
    graphemes_of, is_grapheme, is_printable_ascii, lemma_updates_show_after, printed_cells, reach,
    same_outside, screen, shows, shows_graphemes, styled_cells, update_views, updated_cells,
    updates_are_changes, updates_are_due, updates_cover, updates_lead_to, CellView, Cells, Rect,
    Surface, Update,
};
use crate::text::{decimal, right_aligned};
use crate::text_area::draw_text;
use vstd::prelude::*;

verus! {

/// The state of a renderer.
#[verifier::ext_equal]
pub struct RendererView {
    /// The columns and rows of the screen.
    pub size: (u16, u16),
    /// The grid that the next frame is drawn on.
    pub surface: Cells,
    /// What the screen shows.
    pub cache: Cells,
    /// The style of the text that is not the document's.
    pub text_color: Style,
}

/// The foreground of the text that is not the document's.
pub open spec fn lilac() -> CellColor {
    CellColor::Rgb(219, 191, 239)
}

/// The columns of the grids for a screen of the given size.
pub open spec fn grid_width(size: (u16, u16)) -> int {
    if fits(size) {
        size.0 as int
    } else {
        bounded_rect(0, 0, size.0, size.1).width as int
    }
}

/// An empty screen in the background style.
pub open spec fn background_cells(size: (u16, u16), style: Style) -> Cells {
    styled_cells(blank_cells(screen(size)), screen(size), style)
}

/// The document on a screen of the given size, of which `height` rows are for its text.
pub open spec fn document_cells(
    size: (u16, u16),
    document: DocumentView,
    height: int,
) -> Cells {
    numbered_cells(
        drawn_glyphs(
            background_cells(size, document.theme.background),
            screen(size),
            glyphs(document, document.highlights@.len()),
            height,
            document.tab_width as nat,
        ),
        screen(size),
        document.first_line as nat,
        line_count(document.first_line, document.last_line),
        document.theme.linenr,
    )
}

/// Right of the line numbers, the document is its text over the background.
proof fn lemma_document_cells(size: (u16, u16), document: DocumentView, height: int)
    ensures
        document_cells(size, document, height).dom() == background_cells(
            size,
            document.theme.background,
        ).dom(),
        forall|p: (int, int)|
            #![trigger document_cells(size, document, height)[p]]
            screen(size).covers(p) && p.0 >= OFFSET ==> document_cells(size, document, height)[p]
                == drawn_glyphs(
                background_cells(size, document.theme.background),
                screen(size),
                glyphs(document, document.highlights@.len()),
                height,
                document.tab_width as nat,
            )[p],
{
    let text = glyphs(document, document.highlights@.len());
    let tab_width = document.tab_width as nat;
    let background = background_cells(size, document.theme.background);
    lemma_same_domain(background, screen(size), text, height, tab_width);
    lemma_numbered_cells(
        drawn_glyphs(background, screen(size), text, height, tab_width),
        background,
        screen(size),
        document.first_line as nat,
        line_count(document.first_line, document.last_line),
        document.theme.linenr,
    );
}

/// Each grapheme of the document that has a place on the screen is seen there, right of the line
/// numbers: in the row that the newlines before it give and the column that the glyphs of its line
/// give, over the background, in the style of its scope and selection, with blank cells where it is
/// wider than one column. Its row is to be even before it; the rest of the text does not matter.
pub proof fn lemma_document_text_is_seen(
    size: (u16, u16),
    document: DocumentView,
    height: int,
    i: int,
)
    requires
        ({
            let text = glyphs(document, document.highlights@.len());
            let before = text.take(i);
            &&& 0 <= i < text.len()
            &&& has_place(screen(size), before, text[i], height, document.tab_width as nat)
            &&& row_after(before) < size.1
            &&& columns(text[i].text) <= text[i].width
            &&& is_even(before, row_after(before) as int)
        }),
    ensures
        ({
            let text = glyphs(document, document.highlights@.len());
            let column = OFFSET + column_after(text.take(i), document.tab_width as nat);
            let row = row_after(text.take(i)) as int;
            let cells = document_cells(size, document, height);
            &&& cells[(column, row)] == (CellView {
                symbol: text[i].text,
                ..CellView::blank().styled(document.theme.background).styled(text[i].style)
            })
            &&& forall|x: int|
                column < x < column + columns(text[i].text) ==> #[trigger] cells[(x, row)]
                    == CellView::blank()
        }),
{
    let text = glyphs(document, document.highlights@.len());
    let tab_width = document.tab_width as nat;
    let background = background_cells(size, document.theme.background);
    lemma_glyph_is_seen(background, screen(size), text, height, tab_width, i);
    lemma_document_cells(size, document, height);
    let column = OFFSET + column_after(text.take(i), tab_width);
    let row = row_after(text.take(i)) as int;
    assert(screen(size).covers((column, row)));
    assert forall|x: int|
        column < x < column + columns(text[i].text) implies #[trigger] document_cells(
        size,
        document,
        height,
    )[(x, row)] == CellView::blank() by {
        assert(screen(size).covers((x, row)));
        assert(background.dom().contains((x, row)));
        assert(drawn_glyphs(background, screen(size), text, height, tab_width)[(x, row)]
            == CellView::blank());
    }
}

/// Each grapheme of the document that has a place on the screen, and to which the text gives a
/// column, is shown there in its style, whatever the rest of the text is.
pub proof fn lemma_document_text_is_shown(
    size: (u16, u16),
    document: DocumentView,
    height: int,
    i: int,
)
    requires
        ({
            let text = glyphs(document, document.highlights@.len());
            let before = text.take(i);
            &&& 0 <= i < text.len()
            &&& has_place(screen(size), before, text[i], height, document.tab_width as nat)
            &&& row_after(before) < size.1
            &&& text[i].width >= 1
        }),
    ensures
        ({
            let text = glyphs(document, document.highlights@.len());
            let column = OFFSET + column_after(text.take(i), document.tab_width as nat);
            let row = row_after(text.take(i)) as int;
            bears(document_cells(size, document, height)[(column, row)], text[i])
        }),
{
    let text = glyphs(document, document.highlights@.len());
    let tab_width = document.tab_width as nat;
    let background = background_cells(size, document.theme.background);
    let p = (OFFSET + column_after(text.take(i), tab_width), row_after(text.take(i)) as int);
    assert(screen(size).covers(p));
    lemma_glyph_is_shown(background, screen(size), text, height, tab_width, i);
    lemma_document_cells(size, document, height);
}

/// Right of the line numbers, a cell that no glyph takes up is blank, in the background style.
pub proof fn lemma_document_rest_is_blank(
    size: (u16, u16),
    document: DocumentView,
    height: int,
    p: (int, int),
)
    requires
        screen(size).covers(p),
        p.0 >= OFFSET,
        !is_taken(
            screen(size),
            glyphs(document, document.highlights@.len()),
            height,
            document.tab_width as nat,
            p,
        ),
    ensures
        document_cells(size, document, height)[p] == CellView::blank().styled(
            document.theme.background,
        ),
{
    lemma_rest_is_untouched(
        background_cells(size, document.theme.background),
        screen(size),
        glyphs(document, document.highlights@.len()),
        height,
        document.tab_width as nat,
        p,
    );
    lemma_document_cells(size, document, height);
}

/// Where a grapheme of the document comes to stand on the screen and what is seen of it there: in
/// the row that the newlines before it count, six columns and a tab's width for each tab before it
/// on its line and the width of each other glyph there from the left edge, if it fits before the
/// right edge and its row is below `height` or the first one.
pub proof fn lemma_document_glyph_stands(
    size: (u16, u16),
    document: DocumentView,
    height: int,
    from: int,
    i: int,
)
    requires
        ({
            let text = glyphs(document, document.highlights@.len());
            let line = text.subrange(from, i);
            let column = 6 + count_of(line, '\t') * document.tab_width + widths_of(line);
            let row = count_of(text.take(i), '\n');
            &&& 0 <= from <= i < text.len()
            &&& is_line(text.take(i), from)
            &&& text[i].text != seq!['\n']
            &&& text[i].text != seq!['\t']
            &&& is_grapheme(text[i].text)
            &&& columns(text[i].text) >= 1
            &&& text[i].width >= 1
            &&& row < size.1
            &&& row == 0 || row < height
            &&& column + columns(text[i].text) <= size.0
        }),
    ensures
        ({
            let text = glyphs(document, document.highlights@.len());
            let line = text.subrange(from, i);
            let column = 6 + count_of(line, '\t') * document.tab_width + widths_of(line);
            let row = count_of(text.take(i), '\n') as int;
            let cell = document_cells(size, document, height)[(column, row)];
            &&& cell.symbol == text[i].text
            &&& text[i].style.fg matches Some(color) ==> cell.fg == color
            &&& text[i].style.bg matches Some(color) ==> cell.bg == color
        }),
{
    let text = glyphs(document, document.highlights@.len());
    let tab_width = document.tab_width as nat;
    let line = text.subrange(from, i);
    let column = 6 + count_of(line, '\t') * document.tab_width + widths_of(line);
    let row = count_of(text.take(i), '\n') as int;
    assert(text.take(i).skip(from) =~= line);
    lemma_columns_are_counted(text.take(i), from, tab_width);
    assert(screen(size).covers((column, row)));
    lemma_glyph_stands(
        background_cells(size, document.theme.background),
        screen(size),
        text,
        height,
        tab_width,
        from,
        i,
    );
    lemma_document_cells(size, document, height);
}

/// What is seen where no grapheme of the document is: left of the text the number of each line, one
/// line to a row from the first one on, and everywhere else nothing but the background.
pub proof fn lemma_rest_of_document(
    size: (u16, u16),
    document: DocumentView,
    height: int,
    p: (int, int),
)
    requires
        screen(size).covers(p),
        p.0 < 6 || p.1 >= 1 && p.1 >= height || forall|i: int|
            0 <= i < glyphs(document, document.highlights@.len()).len() && (#[trigger] glyphs(
                document,
                document.highlights@.len(),
            )[i]).text != seq!['\n'] && glyphs(document, document.highlights@.len())[i].text
                != seq!['\t'] && row_after(glyphs(document, document.highlights@.len()).take(i))
                == p.1 ==> p.0 < 6 + column_after(
                glyphs(document, document.highlights@.len()).take(i),
                document.tab_width as nat,
            ) || p.0 >= 6 + column_after(
                glyphs(document, document.highlights@.len()).take(i),
                document.tab_width as nat,
            ) + columns_of(graphemes_of(glyphs(document, document.highlights@.len())[i].text)),
    ensures
        p.0 < 5 && document.first_line + p.1 < document.last_line ==> document_cells(
            size,
            document,
            height,
        )[p] == (CellView {
            symbol: seq![
                right_aligned(decimal((document.first_line + p.1 + 1) as nat), 5)[p.0],
            ],
            ..CellView::blank().styled(document.theme.background).styled(document.theme.linenr)
        }),
        p.0 >= 5 || document.first_line + p.1 >= document.last_line ==> document_cells(
            size,
            document,
            height,
        )[p] == CellView::blank().styled(document.theme.background),
{
    let text = glyphs(document, document.highlights@.len());
    let tab_width = document.tab_width as nat;
    let background = background_cells(size, document.theme.background);
    let drawn = drawn_glyphs(background, screen(size), text, height, tab_width);
    let count = line_count(document.first_line, document.last_line);
    lemma_same_domain(background, screen(size), text, height, tab_width);
    assert(background.dom().contains(p));
    lemma_nothing_else_is_drawn(background, screen(size), text, height, tab_width, p);
    lemma_numbered_cells(
        drawn,
        background,
        screen(size),
        document.first_line as nat,
        count,
        document.theme.linenr,
    );
    if p.0 < 5 && p.1 < count {
        lemma_line_number_is_seen(
            drawn,
            screen(size),
            document.first_line as nat,
            count,
            document.theme.linenr,
            p.0,
            p.1,
        );
    }
}

/// The name of a mode on the status line.
pub open spec fn mode_name(mode: Mode) -> Seq<char> {
    match mode {
        Mode::Insert => seq!['I', 'N', 'S'],
        Mode::Normal => seq!['N', 'O', 'R'],
        Mode::Goto => seq!['G', 'O', 'T', 'O'],
    }
}

/// `cells` with the status line, which is the last row but one.
pub open spec fn statusline_cells(
    cells: Cells,
    size: (u16, u16),
    text_color: Style,
    document: DocumentView,
) -> Cells {
    printed_cells(
        styled_cells(
            cells,
            Rect { x: 0, y: (size.1 - 2) as u16, width: size.0, height: 1 },
            document.theme.statusline,
        ),
        screen(size),
        1,
        size.1 - 2,
        mode_name(document.mode),
        usize::MAX as int,
        text_color,
    )
}

/// The status line changes no other row, and what it makes of a cell does not depend on the other
/// cells.
pub proof fn lemma_statusline_cells(
    cells: Cells,
    other: Cells,
    size: (u16, u16),
    text_color: Style,
    document: DocumentView,
)
    ensures
        statusline_cells(cells, size, text_color, document).dom() == cells.dom(),
        forall|p: (int, int)|
            #![trigger statusline_cells(cells, size, text_color, document)[p]]
            cells.dom().contains(p) && p.1 != size.1 - 2 && size.1 >= 2 ==> statusline_cells(
                cells,
                size,
                text_color,
                document,
            )[p] == cells[p],
        forall|p: (int, int)|
            #![trigger statusline_cells(cells, size, text_color, document)[p]]
            cells.dom().contains(p) && other.dom().contains(p) && cells[p] == other[p]
                ==> statusline_cells(cells, size, text_color, document)[p] == statusline_cells(
                other,
                size,
                text_color,
                document,
            )[p],
{
}

/// The status line is the last row but one. All of it is in the style of the status line, and from
/// its second column on it names the mode, in the style of the editor's own text.
pub proof fn lemma_statusline_names_mode(
    cells: Cells,
    size: (u16, u16),
    text_color: Style,
    document: DocumentView,
    p: (int, int),
)
    requires
        size.1 >= 2,
        screen(size).covers(p),
        cells.dom().contains(p),
    ensures
        ({
            let name = if document.mode == Mode::Insert {
                seq!['I', 'N', 'S']
            } else if document.mode == Mode::Normal {
                seq!['N', 'O', 'R']
            } else {
                seq!['G', 'O', 'T', 'O']
            };
            let cell = statusline_cells(cells, size, text_color, document)[p];
            let styled = cells[p].styled(document.theme.statusline);
            if p.1 != size.1 - 2 {
                cell == cells[p]
            } else if 1 <= p.0 <= name.len() {
                cell == (CellView { symbol: seq![name[p.0 - 1]], ..styled.styled(text_color) })
            } else {
                cell == styled
            }
        }),
{
}

/// The prompt that is referred to, if one is.
pub open spec fn pointee(prompt: Option<&Prompt>) -> Option<Prompt> {
    match prompt {
        Some(prompt) => Some(*prompt),
        None => None,
    }
}

/// Where the cursor belongs on the screen, in columns and rows: after the input of the prompt, if
/// there is one, in the row that the width of the screen gives, and otherwise where the document has
/// it in its part of the screen.
pub open spec fn cursor_place(
    size: (u16, u16),
    document: DocumentView,
    prompt: Option<Prompt>,
    viewport: Rect,
) -> (int, int) {
    match prompt {
        Some(prompt) => (2 + prompt.cursor, size.0 as int),
        None => (document.cursor->0.col + viewport.x, document.cursor->0.row + viewport.y),
    }
}

/// `cells` with the path of the document in the last row, unless there is a prompt.
pub open spec fn path_cells(
    cells: Cells,
    size: (u16, u16),
    text_color: Style,
    document: DocumentView,
    prompt: Option<Prompt>,
) -> Cells {
    if prompt is None && document.path is Some {
        printed_cells(
            cells,
            screen(size),
            6,
            size.1 - 1,
            document.path->0@,
            usize::MAX as int,
            text_color,
        )
    } else {
        cells
    }
}

/// What is seen of a path: from the seventh column of the last row on, one character to a cell in
/// the style of the editor's own text, but only without a prompt. Nothing else changes.
pub proof fn lemma_path_stands(
    cells: Cells,
    size: (u16, u16),
    text_color: Style,
    document: DocumentView,
    prompt: Option<Prompt>,
    p: (int, int),
)
    requires
        cells.dom().contains(p),
        screen(size).covers(p),
        document.path matches Some(path) ==> is_printable_ascii(path@),
    ensures
        ({
            let cell = path_cells(cells, size, text_color, document, prompt)[p];
            if prompt is None && document.path is Some && p.1 == size.1 - 1 && 6 <= p.0 < 6
                + document.path->0@.len() {
                cell == (CellView {
                    symbol: seq![document.path->0@[p.0 - 6]],
                    ..cells[p].styled(text_color)
                })
            } else {
                cell == cells[p]
            }
        }),
{
}

/// Draws the editor, a frame at a time.
pub struct Renderer {
    size: (u16, u16),
    surface: Surface,
    cache: Surface,
    text_color: Style,
}

impl View for Renderer {
    type V = RendererView;

    closed spec fn view(&self) -> RendererView {
        RendererView {
            size: self.size,
            surface: self.surface@,
            cache: self.cache@,
            text_color: self.text_color,
        }
    }
}

impl Renderer {
    /// The two grids cover the same part of the screen, which is the whole of it where it fits.
    pub closed spec fn wf(self) -> bool {
        &&& self.surface.wf()
        &&& self.cache.wf()
        &&& self.surface.area() == self.cache.area()
        &&& self.surface.area().x == 0
        &&& self.surface.area().y == 0
        &&& self.surface.area() == bounded_rect(0, 0, self.size.0, self.size.1)
        &&& fits(self.size) ==> self.surface.area() == screen(self.size)
    }

    /// Both grids have a cell for every place of a screen that fits, and no other.
    pub proof fn lemma_grids_fill_screen(self)
        requires
            self.wf(),
            fits(self@.size),
        ensures
            forall|p: (int, int)| #[trigger]
                self@.surface.dom().contains(p) <==> screen(self@.size).covers(p),
            forall|p: (int, int)| #[trigger]
                self@.cache.dom().contains(p) <==> screen(self@.size).covers(p),
    {
        self.surface.lemma_cells_fill_area();
        self.cache.lemma_cells_fill_area();
    }

    /// A renderer for a screen of the given columns and rows, on which nothing is drawn yet.
    pub fn new(size: (u16, u16)) -> (renderer: Renderer)
        ensures
            renderer.wf(),
            renderer@ == (RendererView {
                size,
                surface: blank_cells(bounded_rect(0, 0, size.0, size.1)),
                cache: blank_cells(bounded_rect(0, 0, size.0, size.1)),
                text_color: Style::plain().with_fg(lilac()),
            }),
            fits(size) ==> bounded_rect(0, 0, size.0, size.1) == screen(size),
            renderer@.text_color.fg == Some(CellColor::Rgb(219, 191, 239)),
            renderer@.text_color.bg is None,
            renderer@.text_color.add_modifier == 0,
            renderer@.text_color.sub_modifier == 0,
    {
        let text_color = Style::default().fg(CellColor::Rgb(219, 191, 239));
        let area = Rect::new(0, 0, size.0, size.1);
        Renderer { size, surface: Surface::empty(area), cache: Surface::empty(area), text_color }
    }

    /// The columns and rows of the screen.
    pub fn size(&self) -> (size: (u16, u16))
        ensures
            size == self@.size,
    {
        self.size
    }

    /// Starts over on a screen of another size.
    pub fn resize(&mut self, width: u16, height: u16)
        ensures
            final(self).wf(),
            final(self)@ == (RendererView {
                size: (width, height),
                surface: blank_cells(bounded_rect(0, 0, width, height)),
                cache: blank_cells(bounded_rect(0, 0, width, height)),
                text_color: old(self)@.text_color,
            }),
            fits((width, height)) ==> bounded_rect(0, 0, width, height) == screen(
                (width, height),
            ),
    {
        self.size = (width, height);
        let area = Rect::new(0, 0, width, height);
        self.surface = Surface::empty(area);
        self.cache = Surface::empty(area);
    }

    /// Draws the document and the status line.
    pub fn render_view(&mut self, document: &DocumentView, viewport: Rect)
        requires
            old(self).wf(),
            fits(old(self)@.size),
            old(self)@.size.1 >= 2,
            stays_within(
                glyphs(*document, document.highlights@.len()),
                viewport.height as int,
                old(self)@.size.1 as int,
            ),
            document.last_line - document.first_line <= old(self)@.size.1,
            document.drawable(viewport.height as int),
        ensures
            final(self).wf(),
            final(self)@ == (RendererView {
                surface: statusline_cells(
                    document_cells(old(self)@.size, *document, viewport.height as int),
                    old(self)@.size,
                    old(self)@.text_color,
                    *document,
                ),
                ..old(self)@
            }),
            // Above and below the status line is the document.
            forall|p: (int, int)|
                #![trigger final(self)@.surface[p]]
                screen(old(self)@.size).covers(p) && p.1 != old(self)@.size.1 - 2
                    ==> final(self)@.surface[p] == document_cells(
                    old(self)@.size,
                    *document,
                    viewport.height as int,
                )[p],
            forall|p: (int, int)|
                #![trigger final(self)@.surface[p]]
                screen(old(self)@.size).covers(p) && p.0 < OFFSET && p.1 != old(self)@.size.1 - 2
                    ==> final(self)@.surface[p] == numbered_cells(
                    background_cells(old(self)@.size, document.theme.background),
                    screen(old(self)@.size),
                    document.first_line as nat,
                    line_count(document.first_line, document.last_line),
                    document.theme.linenr,
                )[p],
            // Below the text and the line numbers there is nothing but the status line.
            forall|p: (int, int)|
                #![trigger final(self)@.surface[p]]
                screen(old(self)@.size).covers(p) && p.1 >= shown_rows(viewport.height as int)
                    && p.1 >= line_count(document.first_line, document.last_line)
                    ==> final(self)@.surface[p] == statusline_cells(
                    background_cells(old(self)@.size, document.theme.background),
                    old(self)@.size,
                    old(self)@.text_color,
                    *document,
                )[p],
    {
        self.render_buffer(document, viewport);
        let ghost drawn = self@.surface;
        proof {
            self.surface.lemma_cells_fill_area();
            lemma_statusline_cells(
                drawn,
                background_cells(self.size, document.theme.background),
                self.size,
                self.text_color,
                *document,
            );
        }
        self.render_statusline(document);
    }

    /// Draws the document on an empty screen: its text in the rows of `viewport`, right of the line
    /// numbers and the gutter. What was drawn before is gone.
    pub fn render_buffer(&mut self, document: &DocumentView, viewport: Rect)
        requires
            old(self).wf(),
            fits(old(self)@.size),
            stays_within(
                glyphs(*document, document.highlights@.len()),
                viewport.height as int,
                old(self)@.size.1 as int,
            ),
            document.last_line - document.first_line <= old(self)@.size.1,
            document.drawable(viewport.height as int),
        ensures
            final(self).wf(),
            final(self)@ == (RendererView {
                surface: document_cells(old(self)@.size, *document, viewport.height as int),
                ..old(self)@
            }),
            // The text keeps off the line numbers and the gutter, and the line numbers keep off
            // the gutter and the text.
            forall|p: (int, int)|
                #![trigger final(self)@.surface[p]]
                screen(old(self)@.size).covers(p) && p.0 < OFFSET ==> final(self)@.surface[p]
                    == numbered_cells(
                    background_cells(old(self)@.size, document.theme.background),
                    screen(old(self)@.size),
                    document.first_line as nat,
                    line_count(document.first_line, document.last_line),
                    document.theme.linenr,
                )[p],
            forall|p: (int, int)|
                #![trigger final(self)@.surface[p]]
                screen(old(self)@.size).covers(p) && p.0 >= OFFSET ==> final(self)@.surface[p]
                    == drawn_glyphs(
                    background_cells(old(self)@.size, document.theme.background),
                    screen(old(self)@.size),
                    glyphs(*document, document.highlights@.len()),
                    viewport.height as int,
                    document.tab_width as nat,
                )[p],
            // Each line number is right-aligned in the first five columns.
            forall|p: (int, int)|
                #![trigger final(self)@.surface[p]]
                screen(old(self)@.size).covers(p) && p.0 < 5 && p.1 < line_count(
                    document.first_line,
                    document.last_line,
                ) ==> final(self)@.surface[p] == (CellView {
                    symbol: seq![
                        right_aligned(decimal((document.first_line + p.1 + 1) as nat), 5)[p.0],
                    ],
                    ..CellView::blank().styled(document.theme.background).styled(
                        document.theme.linenr,
                    )
                }),
            // The gutter is empty, and so is what is below the line numbers or below the text.
            forall|p: (int, int)|
                #![trigger final(self)@.surface[p]]
                screen(old(self)@.size).covers(p) && (p.0 == OFFSET - 1 || p.0 < OFFSET && p.1
                    >= line_count(document.first_line, document.last_line) || p.0 >= OFFSET && p.1
                    >= shown_rows(viewport.height as int)) ==> final(self)@.surface[p]
                    == CellView::blank().styled(document.theme.background),
    {
        let area = Rect::new(0, 0, self.size.0, self.size.1);
        self.surface.reset();
        self.surface.set_style(area, document.theme.background);
        let ghost background = self.surface@;
        draw_text(&mut self.surface, document, viewport.height);
        let ghost with_text = self.surface@;
        proof {
            lemma_text_keeps_off(
                background,
                area,
                glyphs(*document, document.highlights@.len()),
                viewport.height as int,
                document.tab_width as nat,
            );
        }
        draw_line_numbers(
            &mut self.surface,
            document.first_line,
            document.last_line,
            document.theme.linenr,
        );
        proof {
            lemma_numbered_cells(
                with_text,
                background,
                area,
                document.first_line as nat,
                line_count(document.first_line, document.last_line),
                document.theme.linenr,
            );
            assert forall|p: (int, int)|
                #![trigger self.surface@[p]]
                area.covers(p) && p.0 < 5 && p.1 < line_count(
                    document.first_line,
                    document.last_line,
                ) implies self.surface@[p] == (CellView {
                symbol: seq![
                    right_aligned(decimal((document.first_line + p.1 + 1) as nat), 5)[p.0],
                ],
                ..CellView::blank().styled(document.theme.background).styled(
                    document.theme.linenr,
                )
            }) by {
                lemma_line_number_is_seen(
                    with_text,
                    area,
                    document.first_line as nat,
                    line_count(document.first_line, document.last_line),
                    document.theme.linenr,
                    p.0,
                    p.1,
                );
            }
        }
    }

    /// Draws the status line over the last row but one.
    pub fn render_statusline(&mut self, document: &DocumentView)
        requires
            old(self).wf(),
            fits(old(self)@.size),
            old(self)@.size.1 >= 2,
        ensures
            final(self).wf(),
            final(self)@ == (RendererView {
                surface: statusline_cells(
                    old(self)@.surface,
                    old(self)@.size,
                    old(self)@.text_color,
                    *document,
                ),
                ..old(self)@
            }),
            same_outside(
                old(self)@.surface,
                final(self)@.surface,
                old(self)@.size.1 - 2,
                0,
                old(self)@.size.0 as int,
            ),
    {
        let mode = match document.mode {
            Mode::Insert => "INS",
            Mode::Normal => "NOR",
            Mode::Goto => "GOTO",
        };
        proof {
            reveal_strlit("INS");
            reveal_strlit("NOR");
            reveal_strlit("GOTO");
            self.surface.lemma_cells_fill_area();
        }
        let row: u16 = self.size.1 - 2;
        self.surface.set_style(Rect::new(0, row, self.size.0, 1), document.theme.statusline);
        let ghost styled = self.surface@;
        self.surface.set_string(1, row, mode, self.text_color);
        assert(styled.dom() =~= old(self)@.surface.dom());
    }

    /// Draws the prompt in the last row, and its completions above the status line.
    pub fn render_prompt(&mut self, document: &DocumentView, prompt: &Prompt)
        requires
            old(self).wf(),
            fits(old(self)@.size),
            has_room(old(self)@.size, *prompt),
        ensures
            final(self).wf(),
            final(self)@ == (RendererView {
                surface: prompt_cells(
                    old(self)@.surface,
                    old(self)@.size,
                    old(self)@.text_color,
                    document.theme.statusline,
                    *prompt,
                ),
                ..old(self)@
            }),
            final(self)@.surface.dom() == old(self)@.surface.dom(),
            // The status line stays, and so does what is above the completions, and in the last row
            // what the prompt and its input do not take up.
            forall|p: (int, int)|
                #![trigger final(self)@.surface[p]]
                screen(old(self)@.size).covers(p) && (p.1 == old(self)@.size.1 - 2 || p.1
                    < old(self)@.size.1 - 2 - completion_height(old(self)@.size, *prompt) || p.1
                    == old(self)@.size.1 - 1 && !(1 <= p.0 < 1 + reach(
                    prompt.prompt@,
                    old(self)@.size.0 - 1,
                )) && !(2 <= p.0 < 2 + reach(prompt.line@, old(self)@.size.0 - 2)))
                    ==> final(self)@.surface[p] == old(self)@.surface[p],
            // The prompt starts the last row, and the input is shown after it.
            forall|p: (int, int)|
                #![trigger final(self)@.surface[p]]
                screen(old(self)@.size).covers(p) && p.1 == old(self)@.size.1 - 1 && p.0 < 2
                    ==> final(self)@.surface[p] == asked_cells(
                    old(self)@.surface,
                    old(self)@.size,
                    old(self)@.text_color,
                    document.theme.statusline,
                    *prompt,
                )[p],
            shows_graphemes(
                asked_cells(
                    old(self)@.surface,
                    old(self)@.size,
                    old(self)@.text_color,
                    document.theme.statusline,
                    *prompt,
                ),
                final(self)@.surface,
                2,
                old(self)@.size.1 - 1,
                graphemes_of(prompt.line@),
                old(self)@.size.0 - 2,
                old(self)@.text_color,
            ),
            // Above the last row there are the completions, whatever the prompt and its input are.
            prompt.completion@.len() > 0 ==> shows_completions(
                panel_cells(
                    old(self)@.surface,
                    old(self)@.size,
                    old(self)@.text_color,
                    document.theme.statusline,
                    grid_rows(prompt.completion@.len(), old(self)@.size.0),
                ),
                final(self)@.surface,
                old(self)@.size,
                old(self)@.text_color,
                *prompt,
                grid_rows(prompt.completion@.len(), old(self)@.size.0),
                prompt.completion@.len(),
            ),
            forall|p: (int, int)|
                #![trigger final(self)@.surface[p]]
                prompt.completion@.len() > 0 && screen(old(self)@.size).covers(p) && p.1
                    < old(self)@.size.1 - 1 ==> final(self)@.surface[p] == completion_cells(
                    old(self)@.surface,
                    old(self)@.size,
                    old(self)@.text_color,
                    document.theme.statusline,
                    *prompt,
                )[p],
    {
        let ghost size = self.size;
        proof {
            self.surface.lemma_cells_fill_area();
        }
        if prompt.completion.len() > 0 {
            let max_col: u16 = self.size.0 / BASE_WIDTH;
            let count: usize = prompt.completion.len();
            let shown: u16 = low_bits(count);
            let col_height: u16 = (shown + max_col - 1) / max_col;
            assert(col_height > 0) by {
                vstd::arithmetic::div_mod::lemma_div_non_zero(
                    shown + max_col - 1,
                    max_col as int,
                );
            }
            assert(size.1 < u16::MAX && size.0 * col_height <= u16::MAX) by (nonlinear_arith)
                requires
                    size.0 * size.1 <= u16::MAX,
                    size.0 >= 30,
                    col_height <= size.1,
            ;
            clear_rows(&mut self.surface, self.size, col_height, self.text_color);
            let area = Rect::new(0, self.size.1 - col_height - 2, self.size.0, col_height);
            self.surface.set_style(area, document.theme.statusline);
            list_completions(&mut self.surface, self.size, self.text_color, prompt, col_height);
        }
        self.surface.set_string(1, self.size.1 - 1, prompt.prompt.as_str(), self.text_color);
        self.surface.set_string(2, self.size.1 - 1, prompt.line.as_str(), self.text_color);
    }

    /// The changes that bring the screen from the last frame to this one. The frame is what the
    /// screen shows from then on, and the next one is drawn over the one before it.
    pub fn draw(&mut self) -> (updates: Vec<Update>)
        requires
            old(self).wf(),
        ensures
            final(self).wf(),
            final(self)@ == (RendererView {
                surface: old(self)@.cache,
                cache: old(self)@.surface,
                ..old(self)@
            }),
            updates_lead_to(update_views(updates@), old(self)@.surface),
            updates_are_due(
                update_views(updates@),
                old(self)@.cache,
                old(self)@.surface,
                grid_width(old(self)@.size),
            ),
            updates_cover(update_views(updates@), old(self)@.cache, old(self)@.surface),
            all_narrow(old(self)@.cache) && all_narrow(old(self)@.surface) ==> updates_are_changes(
                update_views(updates@),
                old(self)@.cache,
                old(self)@.surface,
            ),
            // The screen comes to show the frame, and one that is shown already needs no change.
            shows(updated_cells(old(self)@.cache, update_views(updates@)), old(self)@.surface),
            at_most_two_wide(old(self)@.surface) && old(self)@.cache == old(self)@.surface
                ==> updates@.len() == 0,
            // Each update is to a cell, and says what is to be seen there.
            forall|k: int|
                0 <= k < updates@.len() ==> ({
                    let update = #[trigger] updates@[k];
                    let cell = old(self)@.surface[(update.x as int, update.y as int)];
                    &&& updates@[k].cell.symbol@ == cell.symbol
                    &&& updates@[k].cell.fg == cell.fg
                    &&& updates@[k].cell.bg == cell.bg
                    &&& updates@[k].cell.modifier == cell.modifier
                }),
    {
        let updates = self.cache.diff(&self.surface);
        proof {
            self.surface.lemma_cells_fill_area();
            self.cache.lemma_cells_fill_area();
            assert(self.cache@.dom() =~= self.surface@.dom());
            lemma_updates_show_after(self.cache@, self.surface@, update_views(updates@));
        }
        std::mem::swap(&mut self.surface, &mut self.cache);
        updates
    }

    /// Where the cursor goes and what it looks like, in coordinates of 16 bits. Without a prompt,
    /// the path of the document is drawn in the last row.
    pub fn render_cursor(
        &mut self,
        document: &DocumentView,
        prompt: Option<&Prompt>,
        viewport: Rect,
    ) -> (cursor: Cursor)
        requires
            old(self).wf(),
            prompt is None ==> document.cursor is Some,
            prompt is None && document.path is Some ==> fits(old(self)@.size)
                && old(self)@.size.1 >= 1,
            cursor_place(old(self)@.size, *document, pointee(prompt), viewport).0 <= usize::MAX,
            cursor_place(old(self)@.size, *document, pointee(prompt), viewport).1 <= usize::MAX,
        ensures
            final(self).wf(),
            final(self)@ == (RendererView {
                surface: path_cells(
                    old(self)@.surface,
                    old(self)@.size,
                    old(self)@.text_color,
                    *document,
                    pointee(prompt),
                ),
                ..old(self)@
            }),
            cursor.shape == mode_shape(document.mode),
            cursor.col == cursor_place(old(self)@.size, *document, pointee(prompt), viewport).0
                % 0x1_0000,
            cursor.row == cursor_place(old(self)@.size, *document, pointee(prompt), viewport).1
                % 0x1_0000,
            // The cursor is a bar where text is inserted, and otherwise a block.
            cursor.shape == CursorShape::Bar <==> document.mode == Mode::Insert,
            // Without a prompt it is where the document has it, moved by the origin of its part of
            // the screen.
            prompt is None ==> (document.cursor matches Some(position) ==> cursor.col == (
            position.col + viewport.x) % 0x1_0000 && cursor.row == (position.row + viewport.y)
                % 0x1_0000),
            // With one it is after its input, in the row that the width of the screen gives.
            prompt matches Some(prompt) ==> cursor.col == (2 + prompt.cursor) % 0x1_0000
                && cursor.row == old(self)@.size.0,
            // Only the last row changes, and that only from the seventh column on.
            same_outside(
                old(self)@.surface,
                final(self)@.surface,
                old(self)@.size.1 - 1,
                6,
                old(self)@.size.0 as int,
            ),
            prompt is None && document.path is Some ==> shows_graphemes(
                old(self)@.surface,
                final(self)@.surface,
                6,
                old(self)@.size.1 - 1,
                graphemes_of(document.path->0@),
                old(self)@.size.0 - 6,
                old(self)@.text_color,
            ),
    {
        proof {
            self.surface.lemma_cells_fill_area();
        }
        let shape = CursorShape::for_mode(document.mode);
        let (col, row): (usize, usize) = match prompt {
            Some(prompt) => (2 + prompt.cursor, self.size.0 as usize),
            None => {
                if let Some(path) = &document.path {
                    self.surface.set_string(6, self.size.1 - 1, path.as_str(), self.text_color);
                }
                let position = document.cursor.unwrap();
                (position.col + viewport.x as usize, position.row + viewport.y as usize)
            },
        };
        Cursor { shape, col: low_bits(col), row: low_bits(row) }
    }
}

} // verus!
