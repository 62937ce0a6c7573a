//! Draws the text of a document.
use crate::document::{open_scopes, scope_style, style_at, DocumentView, HighlightEvent};
use crate::layout::{
    column_after, count_of, drawn_glyphs, glyphs, lemma_below_shown_rows, lemma_glyphs_extend,
    lemma_rows_are_counted, lemma_rows_grow, row_after, shown_rows, stays_within, text_glyphs,
    Glyph, OFFSET,
};
use crate::style::{CellColor, Style};
use crate::surface::{Cells, Rect, Surface};
use crate::text::is_char;
use vstd::prelude::*;

verus! {

impl DocumentView {
    /// If event `n` is a piece of source, the outermost scope that is open there has a style, and
    /// the indices of the characters can be counted.
    pub open spec fn source_is_drawable(self, n: nat) -> bool {
        match self.highlights@[n as int] {
            HighlightEvent::Source(text) => {
                &&& open_scopes(self.highlights@, n).len() > 0 ==> open_scopes(
                    self.highlights@,
                    n,
                )[0] < self.theme.scopes@.len()
                &&& text.start + text.graphemes@.len() <= usize::MAX
            },
            _ => true,
        }
    }

    /// The document can be drawn in `height` rows: every piece of source that starts in one of them
    /// can be.
    pub open spec fn drawable(self, height: int) -> bool {
        forall|n: nat|
            n < self.highlights@.len() && row_after(#[trigger] glyphs(self, n)) < shown_rows(height)
                ==> self.source_is_drawable(n)
    }

    /// A document can be drawn exactly if each piece of source that starts in the first row, or in
    /// one of the first `height`, as the newlines before it count them, has a style for its
    /// outermost scope, if it is in one, and characters that can be counted.
    pub proof fn lemma_drawable_pieces(self, height: int)
        ensures
            self.drawable(height) <==> forall|n: nat|
                n < self.highlights@.len() && (count_of(#[trigger] glyphs(self, n), '\n') == 0
                    || count_of(glyphs(self, n), '\n') < height) ==> (self.highlights@[n as int]
                    matches HighlightEvent::Source(text) ==> {
                    let scopes = open_scopes(self.highlights@, n);
                    &&& scopes.len() > 0 ==> scopes.first() < self.theme.scopes@.len()
                    &&& text.start + text.graphemes@.len() <= usize::MAX
                }),
    {
        assert forall|n: nat| row_after(#[trigger] glyphs(self, n)) == count_of(
            glyphs(self, n),
            '\n',
        ) by {
            lemma_rows_are_counted(glyphs(self, n));
        }
    }

    /// The document can be drawn in `height` rows.
    pub fn is_drawable(&self, height: u16) -> (drawable: bool)
        ensures
            drawable == self.drawable(height as int),
    {
        let ghost events = self.highlights@;
        let mut spans: Vec<usize> = Vec::new();
        let mut line: u16 = 0;
        let mut k: usize = 0;
        while k < self.highlights.len()
            invariant
                k <= self.highlights.len(),
                events == self.highlights@,
                spans@ == open_scopes(events, k as nat),
                line == row_after(glyphs(*self, k as nat)),
                line < shown_rows(height as int),
                forall|n: nat|
                    n < k && row_after(#[trigger] glyphs(*self, n)) < shown_rows(height as int)
                        ==> self.source_is_drawable(n),
            decreases self.highlights.len() - k,
        {
            match &self.highlights[k] {
                HighlightEvent::HighlightStart(span) => {
                    spans.push(*span);
                },
                HighlightEvent::HighlightEnd => {
                    spans.pop();
                },
                HighlightEvent::Source(source) => {
                    let in_theme = spans.len() == 0 || spans[0] < self.theme.scopes.len();
                    let countable = source.graphemes.len() <= usize::MAX - source.start;
                    if !in_theme || !countable {
                        return false;
                    }
                    let ghost before = glyphs(*self, k as nat);
                    let ghost segment = text_glyphs(
                        *source,
                        scope_style(self.theme, spans@),
                        self.selections@,
                    );
                    let mut i: usize = 0;
                    while i < source.graphemes.len()
                        invariant
                            i <= source.graphemes.len(),
                            k < events.len(),
                            events == self.highlights@,
                            segment == text_glyphs(
                                *source,
                                scope_style(self.theme, open_scopes(events, k as nat)),
                                self.selections@,
                            ),
                            glyphs(*self, (k + 1) as nat) == before + segment,
                            line == row_after(before + segment.take(i as int)),
                            line < shown_rows(height as int),
                            self.source_is_drawable(k as nat),
                            forall|n: nat|
                                n < k && row_after(#[trigger] glyphs(*self, n)) < shown_rows(
                                    height as int,
                                ) ==> self.source_is_drawable(n),
                        decreases source.graphemes.len() - i,
                    {
                        let ghost next = before + segment.take(i + 1);
                        assert(next.drop_last() == before + segment.take(i as int));
                        i = i + 1;
                        if is_char(source.graphemes[i - 1].text.as_str(), '\n') {
                            line = line + 1;
                            if line >= height {
                                proof {
                                    assert(before + segment == next + segment.skip(i as int));
                                    lemma_rows_grow(next, segment.skip(i as int));
                                    assert forall|n: nat|
                                        n < events.len() && row_after(
                                            #[trigger] glyphs(*self, n),
                                        ) < shown_rows(
                                            height as int,
                                        ) implies self.source_is_drawable(n) by {
                                        if n > k {
                                            let rest = lemma_glyphs_extend(
                                                *self,
                                                (k + 1) as nat,
                                                n,
                                            );
                                            lemma_rows_grow(before + segment, rest);
                                        }
                                    }
                                }
                                return true;
                            }
                        }
                    }
                    assert(segment.take(segment.len() as int) == segment);
                },
            }
            k = k + 1;
        }
        true
    }
}

/// The number of newlines in a text. One that follows a carriage return makes up a grapheme with it
/// and does not count.
pub open spec fn newlines_in(text: Seq<char>) -> nat
    decreases text.len(),
{
    if text.len() == 0 {
        0
    } else if text.last() == '\n' && !(text.len() >= 2 && text[text.len() - 2] == '\r') {
        newlines_in(text.drop_last()) + 1
    } else {
        newlines_in(text.drop_last())
    }
}

/// The number of newlines in a text, but for those after a carriage return.
pub fn newline_count(text: &str) -> (count: usize)
    ensures
        count == newlines_in(text@),
{
    let len: usize = text.unicode_len();
    let mut count: usize = 0;
    let mut returned = false;
    let mut i: usize = 0;
    while i < len
        invariant
            i <= len,
            len == text@.len(),
            count <= i,
            count == newlines_in(text@.take(i as int)),
            returned == (i > 0 && text@[i - 1] == '\r'),
        decreases len - i,
    {
        let c = text.get_char(i);
        assert(text@.take(i + 1).drop_last() == text@.take(i as int));
        if c == '\n' && !returned {
            count = count + 1;
        }
        returned = c == '\r';
        i = i + 1;
    }
    assert(text@.take(len as int) == text@);
    count
}

/// The newlines that count are those places of a text that hold one and do not come right after a
/// carriage return.
pub proof fn lemma_newlines_are_places(text: Seq<char>)
    ensures
        newlines_in(text) == Seq::new(text.len(), |i: int| i).filter(
            |i: int| text[i] == '\n' && !(i > 0 && text[i - 1] == '\r'),
        ).len(),
{
    lemma_newlines_up_to(text, text.len());
    assert(text.take(text.len() as int) =~= text);
}

proof fn lemma_newlines_up_to(text: Seq<char>, n: nat)
    requires
        n <= text.len(),
    ensures
        newlines_in(text.take(n as int)) == Seq::new(n, |i: int| i).filter(
            |i: int| text[i] == '\n' && !(i > 0 && text[i - 1] == '\r'),
        ).len(),
    decreases n,
{
    reveal_with_fuel(Seq::filter, 2);
    let places = Seq::new(n, |i: int| i);
    if n > 0 {
        lemma_newlines_up_to(text, (n - 1) as nat);
        assert(places.drop_last() =~= Seq::new((n - 1) as nat, |i: int| i));
        assert(text.take(n as int).drop_last() =~= text.take(n - 1));
    }
}

/// The newlines of the first `n` events together.
pub open spec fn newlines_before(newlines: Seq<usize>, n: nat) -> nat
    decreases n,
{
    if n == 0 {
        0
    } else {
        newlines_before(newlines, (n - 1) as nat) + newlines[n - 1] as nat
    }
}

/// The first `n` events fill the shown rows: they have as many newlines as rows are to be seen, and
/// one at least.
pub open spec fn fills_rows(newlines: Seq<usize>, n: nat, height: int) -> bool {
    newlines_before(newlines, n) > 0 && newlines_before(newlines, n) >= height
}

/// Rows are full where the newlines so far come to `height` or more, and to one at least.
pub proof fn lemma_full_rows(newlines: Seq<usize>, n: nat, height: int)
    requires
        n <= newlines.len(),
    ensures
        fills_rows(newlines, n, height) <==> ({
            let sum = newlines.take(n as int).fold_left(0, |sum: int, more: usize| sum + more);
            sum >= 1 && sum >= height
        }),
{
    lemma_newlines_add_up(newlines, n);
}

proof fn lemma_newlines_add_up(newlines: Seq<usize>, n: nat)
    requires
        n <= newlines.len(),
    ensures
        newlines_before(newlines, n) == newlines.take(n as int).fold_left(
            0,
            |sum: int, more: usize| sum + more,
        ),
    decreases n,
{
    reveal_with_fuel(Seq::fold_left, 2);
    if n > 0 {
        lemma_newlines_add_up(newlines, (n - 1) as nat);
        assert(newlines.take(n as int).drop_last() =~= newlines.take(n - 1));
    }
}

/// How many events it takes to fill `height` rows, where event `i` has `newlines[i]` newlines: the
/// fewest that do, or all of them if they do not.
pub fn shown_count(newlines: &Vec<usize>, height: u16) -> (n: usize)
    ensures
        n <= newlines@.len(),
        n == newlines@.len() || fills_rows(newlines@, n as nat, height as int),
        forall|m: nat| m < n ==> !fills_rows(newlines@, m, height as int),
{
    let rows: usize = if height > 0 {
        height as usize
    } else {
        1
    };
    let mut left: usize = rows;
    let mut n: usize = 0;
    while n < newlines.len() && left > 0
        invariant
            n <= newlines.len(),
            rows == shown_rows(height as int),
            left <= rows,
            left > 0 ==> newlines_before(newlines@, n as nat) == rows - left,
            left == 0 ==> newlines_before(newlines@, n as nat) >= rows,
            forall|m: nat|
                m < n ==> !#[trigger] fills_rows(newlines@, m, height as int),
        decreases newlines.len() - n,
    {
        assert(!fills_rows(newlines@, n as nat, height as int));
        left = if newlines[n] < left {
            left - newlines[n]
        } else {
            0
        };
        n = n + 1;
    }
    n
}

/// Events beyond those that fill the shown rows are not seen: the text is drawn the same without
/// them.
pub proof fn lemma_events_beyond_are_not_seen(
    cells: Cells,
    area: Rect,
    document: DocumentView,
    newlines: Seq<usize>,
    n: nat,
    height: int,
    tab_width: nat,
)
    requires
        n <= document.highlights@.len(),
        forall|i: nat|
            i < n ==> row_after(#[trigger] glyphs(document, i + 1)) == row_after(
                glyphs(document, i),
            ) + newlines[i as int],
        fills_rows(newlines, n, height),
    ensures
        drawn_glyphs(
            cells,
            area,
            glyphs(document, document.highlights@.len()),
            height,
            tab_width,
        ) == drawn_glyphs(cells, area, glyphs(document, n), height, tab_width),
{
    lemma_rows_are_newlines(document, newlines, n);
    let rest = lemma_glyphs_extend(document, n, document.highlights@.len());
    lemma_below_shown_rows(cells, area, glyphs(document, n), rest, height, tab_width);
}

/// The row that the first `n` events lead to is the number of their newlines.
proof fn lemma_rows_are_newlines(document: DocumentView, newlines: Seq<usize>, n: nat)
    requires
        forall|i: nat|
            i < n ==> row_after(#[trigger] glyphs(document, i + 1)) == row_after(
                glyphs(document, i),
            ) + newlines[i as int],
    ensures
        row_after(glyphs(document, n)) == newlines_before(newlines, n),
    decreases n,
{
    if n > 0 {
        lemma_rows_are_newlines(document, newlines, (n - 1) as nat);
        assert(glyphs(document, ((n - 1) as nat) + 1) == glyphs(document, n));
    }
}

/// Draws the text of `document` to the right of the line numbers.
#[verifier::spinoff_prover]
#[verifier::rlimit(60)]
pub(crate) fn draw_text(surface: &mut Surface, document: &DocumentView, height: u16)
    requires
        old(surface).wf(),
        old(surface).area().x == 0,
        old(surface).area().y == 0,
        stays_within(
            glyphs(*document, document.highlights@.len()),
            height as int,
            old(surface).area().height as int,
        ),
        document.drawable(height as int),
    ensures
        final(surface).wf(),
        final(surface).area() == old(surface).area(),
        final(surface)@ == drawn_glyphs(
            old(surface)@,
            old(surface).area(),
            glyphs(*document, document.highlights@.len()),
            height as int,
            document.tab_width as nat,
        ),
{
    let ghost cells = surface@;
    let ghost area = surface.area();
    let ghost tab = document.tab_width as nat;
    let ghost events = document.highlights@;
    let ghost whole = glyphs(*document, events.len());
    let mut spans: Vec<usize> = Vec::new();
    let mut visual_x: u32 = 0;
    let mut line: u16 = 0;
    let mut stopped = false;
    let mut k: usize = 0;
    let ghost mut text: Seq<Glyph> = Seq::empty();
    while k < document.highlights.len() && !stopped
        invariant
            k <= document.highlights.len(),
            events == document.highlights@,
            surface.wf(),
            surface.area() == area,
            area.x == 0,
            area.y == 0,
            tab == document.tab_width,
            whole == glyphs(*document, events.len()),
            stays_within(whole, height as int, area.height as int),
            document.drawable(height as int),
            surface@ == drawn_glyphs(cells, area, text, height as int, tab),
            !stopped ==> {
                &&& text == glyphs(*document, k as nat)
                &&& spans@ == open_scopes(events, k as nat)
                &&& line == row_after(text)
                &&& line < shown_rows(height as int)
                &&& visual_x < 0x1_0000 ==> column_after(text, tab) == visual_x
                &&& visual_x >= 0x1_0000 ==> column_after(text, tab) >= 0x1_0000
                &&& visual_x < 0x2_0000
            },
            stopped ==> {
                &&& row_after(text) >= shown_rows(height as int)
                &&& exists|rest: Seq<Glyph>|
                    glyphs(*document, k as nat) == #[trigger] (text + rest)
            },
        decreases document.highlights.len() - k,
    {
        match &document.highlights[k] {
            HighlightEvent::HighlightStart(span) => {
                spans.push(*span);
            },
            HighlightEvent::HighlightEnd => {
                spans.pop();
            },
            HighlightEvent::Source(source) => {
                let base = if spans.len() > 0 {
                    document.theme.scopes[spans[0]]
                } else {
                    Style::default().fg(CellColor::Rgb(164, 160, 232))
                };
                let ghost before = text;
                let ghost segment = text_glyphs(*source, base, document.selections@);
                let ghost rest = lemma_glyphs_extend(*document, (k + 1) as nat, events.len());
                let mut i: usize = 0;
                while i < source.graphemes.len() && !stopped
                    invariant
                        i <= source.graphemes.len(),
                        source.start + source.graphemes.len() <= usize::MAX,
                        segment == text_glyphs(*source, base, document.selections@),
                        surface.wf(),
                        surface.area() == area,
                        area.x == 0,
                        area.y == 0,
                        tab == document.tab_width,
                        stays_within(whole, height as int, area.height as int),
                        surface@ == drawn_glyphs(cells, area, text, height as int, tab),
                        text == before + segment.take(i as int),
                        whole == before + segment + rest,
                        !stopped ==> {
                            &&& line == row_after(text)
                            &&& line < shown_rows(height as int)
                            &&& visual_x < 0x1_0000 ==> column_after(text, tab) == visual_x
                            &&& visual_x >= 0x1_0000 ==> column_after(text, tab) >= 0x1_0000
                            &&& visual_x < 0x2_0000
                        },
                        stopped ==> row_after(text) >= shown_rows(height as int),
                    decreases source.graphemes.len() - i,
                {
                    let grapheme = &source.graphemes[i];
                    let ghost glyph = segment[i as int];
                    let ghost next = text.push(glyph);
                    assert(next.drop_last() == text);
                    if is_char(grapheme.text.as_str(), '\n') {
                        visual_x = 0;
                        line = line + 1;
                        if line >= height {
                            stopped = true;
                        }
                    } else if is_char(grapheme.text.as_str(), '\t') {
                        if visual_x < 0x1_0000 {
                            visual_x = visual_x + document.tab_width as u32;
                        }
                    } else {
                        let style = style_at(base, &document.selections, source.start + i);
                        let x: u32 = OFFSET as u32 + visual_x;
                        assert(row_after(text) < area.height) by {
                            assert(whole[text.len() as int] == glyph);
                            assert(whole.take(text.len() as int) == text);
                        }
                        if x <= 0xffff {
                            surface.set_string(x as u16, line, grapheme.text.as_str(), style);
                        }
                        if visual_x < 0x1_0000 {
                            visual_x = visual_x + grapheme.width as u32;
                        }
                    }
                    proof {
                        text = next;
                    }
                    i = i + 1;
                }
                proof {
                    if stopped {
                        let rest = segment.skip(i as int);
                        assert(before + segment == text + rest);
                    }
                }
            },
        }
        k = k + 1;
    }
    proof {
        if stopped {
            let rest = choose|rest: Seq<Glyph>|
                glyphs(*document, k as nat) == #[trigger] (text + rest);
            let more = lemma_glyphs_extend(*document, k as nat, events.len());
            assert(glyphs(*document, events.len()) == text + (rest + more));
            lemma_below_shown_rows(cells, area, text, rest + more, height as int, tab);
        }
    }
}

} // verus!
