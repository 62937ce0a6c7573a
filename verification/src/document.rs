//! What the screen shows of the editor, as plain values.
use crate::style::{CellColor, Style};
use vstd::prelude::*;

verus! {

/// The editing mode.
#[derive(Debug, Clone, Copy, PartialEq, Eq, Structural)]
pub enum Mode {
    Normal,
    Insert,
    Goto,
}

/// A place on the screen or in the text, counted from 0.
#[derive(Debug, Clone, Copy, PartialEq, Eq, Structural)]
pub struct Position {
    pub row: usize,
    pub col: usize,
}

/// One selected range of the text: the characters from `from` up to `to` are selected, and the
/// cursor of the range is on `head`.
#[derive(Debug, Clone, Copy, PartialEq, Eq, Structural)]
pub struct Range {
    pub from: usize,
    pub to: usize,
    pub head: usize,
}

impl Range {
    /// The character at `index` is selected.
    pub open spec fn covers(self, index: int) -> bool {
        self.from <= index < self.to
    }

    pub fn contains(&self, index: usize) -> (selected: bool)
        ensures
            selected == self.covers(index as int),
            selected <==> self.from <= index && index < self.to,
    {
        self.from <= index && index < self.to
    }
}

/// One user-perceived character and the number of columns that it takes up.
#[derive(Debug)]
pub struct Grapheme {
    pub text: String,
    pub width: u16,
}

/// A stretch of the text: its graphemes, and the index of the character that it starts with.
#[derive(Debug)]
pub struct Text {
    pub start: usize,
    pub graphemes: Vec<Grapheme>,
}

/// A step of the walk over highlighted source: a scope opens, the innermost one closes, or a piece
/// of source comes.
#[derive(Debug)]
pub enum HighlightEvent<S> {
    HighlightStart(usize),
    HighlightEnd,
    Source(S),
}

/// The bytes from `start` up to `end`.
#[derive(Debug, Clone, Copy, PartialEq, Eq, Structural)]
pub struct ByteRange {
    pub start: usize,
    pub end: usize,
}

/// The styles in use: one for each scope of the syntax, and those of the parts of the screen.
#[derive(Debug)]
pub struct Theme {
    pub scopes: Vec<Style>,
    pub background: Style,
    pub linenr: Style,
    pub statusline: Style,
}

/// What is to be seen of one open document.
#[derive(Debug)]
pub struct DocumentView {
    pub mode: Mode,
    pub theme: Theme,
    /// The first line that is seen, and the line after the last one that is numbered.
    pub first_line: usize,
    pub last_line: usize,
    /// The columns that a tab takes up.
    pub tab_width: u16,
    pub highlights: Vec<HighlightEvent<Text>>,
    pub selections: Vec<Range>,
    pub path: Option<String>,
    /// Where the primary cursor is seen, if it is.
    pub cursor: Option<Position>,
}

/// The foreground of text in no scope.
pub open spec fn lavender() -> CellColor {
    CellColor::Rgb(164, 160, 232)
}

/// The background of selected text.
pub open spec fn cedar() -> CellColor {
    CellColor::Rgb(128, 47, 0)
}

/// The background of a cursor.
pub open spec fn cursor_white() -> CellColor {
    CellColor::Rgb(255, 255, 255)
}

/// The scopes that are open after the first `n` events, the outermost first.
pub open spec fn open_scopes(events: Seq<HighlightEvent<Text>>, n: nat) -> Seq<usize>
    decreases n,
{
    if n == 0 {
        Seq::empty()
    } else {
        let before = open_scopes(events, (n - 1) as nat);
        match events[n - 1] {
            HighlightEvent::HighlightStart(scope) => before.push(scope),
            HighlightEvent::HighlightEnd => if before.len() > 0 {
                before.drop_last()
            } else {
                before
            },
            HighlightEvent::Source(_) => before,
        }
    }
}

/// The style of text in the given scopes: that of the outermost one.
pub open spec fn scope_style(theme: Theme, scopes: Seq<usize>) -> Style {
    if scopes.len() > 0 {
        theme.scopes[scopes[0] as int]
    } else {
        Style::plain().with_fg(lavender())
    }
}

/// Some range has its cursor on the character at `index`.
pub open spec fn is_head(selections: Seq<Range>, index: int) -> bool {
    exists|i: int| 0 <= i < selections.len() && (#[trigger] selections[i]).head == index
}

/// The character at `index` is selected by some range.
pub open spec fn is_selected(selections: Seq<Range>, index: int) -> bool {
    exists|i: int| 0 <= i < selections.len() && (#[trigger] selections[i]).covers(index)
}

/// The style of the character at `index`, whose scopes call for `base`: a cursor shows over a
/// selection.
pub open spec fn selection_style(base: Style, selections: Seq<Range>, index: int) -> Style {
    if is_head(selections, index) {
        base.with_bg(cursor_white())
    } else if is_selected(selections, index) {
        base.with_bg(cedar())
    } else {
        base
    }
}

/// Scopes nest: opening one puts it innermost, closing takes the innermost one away, and source
/// changes nothing. Where none is open, closing changes nothing.
pub proof fn lemma_scopes_nest(events: Seq<HighlightEvent<Text>>, n: nat)
    requires
        n < events.len(),
    ensures
        open_scopes(events, 0).len() == 0,
        events[n as int] matches HighlightEvent::HighlightStart(scope) ==> {
            &&& open_scopes(events, n + 1).len() == open_scopes(events, n).len() + 1
            &&& open_scopes(events, n + 1).last() == scope
            &&& open_scopes(events, n + 1).drop_last() == open_scopes(events, n)
        },
        events[n as int] is HighlightEnd && open_scopes(events, n).len() > 0 ==> open_scopes(
            events,
            n + 1,
        ) == open_scopes(events, n).drop_last(),
        events[n as int] is HighlightEnd && open_scopes(events, n).len() == 0 ==> open_scopes(
            events,
            n + 1,
        ).len() == 0,
        events[n as int] is Source ==> open_scopes(events, n + 1) == open_scopes(events, n),
{
}

/// As long as no more scopes close than were opened since, the scopes that are open at `n` stay open
/// and stay the outermost ones; so when as many are open again, they are the same.
pub proof fn lemma_outer_scopes_stay(events: Seq<HighlightEvent<Text>>, n: nat, m: nat)
    requires
        n <= m <= events.len(),
        forall|k: nat|
            n <= k <= m ==> (#[trigger] open_scopes(events, k)).len() >= open_scopes(
                events,
                n,
            ).len(),
    ensures
        open_scopes(events, m).take(open_scopes(events, n).len() as int) == open_scopes(events, n),
        open_scopes(events, m).len() == open_scopes(events, n).len() ==> open_scopes(events, m)
            == open_scopes(events, n),
    decreases m,
{
    let len = open_scopes(events, n).len() as int;
    if n < m {
        lemma_outer_scopes_stay(events, n, (m - 1) as nat);
        let before = open_scopes(events, (m - 1) as nat);
        let after = open_scopes(events, m);
        assert(after.take(len) =~= before.take(len));
    } else {
        assert(open_scopes(events, m).take(len) =~= open_scopes(events, n));
    }
    if open_scopes(events, m).len() == len {
        assert(open_scopes(events, m).take(len) =~= open_scopes(events, m));
    }
}

/// Text has the style that the theme gives to the outermost open scope, whatever other scopes are
/// open. In no scope, only its foreground is set.
pub proof fn lemma_outermost_scope_counts(theme: Theme, scopes: Seq<usize>)
    ensures
        scopes.len() > 0 ==> scope_style(theme, scopes) == theme.scopes@[scopes.first() as int],
        scopes.len() == 0 ==> {
            let style = scope_style(theme, scopes);
            &&& style.fg == Some(CellColor::Rgb(164, 160, 232))
            &&& style.bg is None
            &&& style.add_modifier == 0
            &&& style.sub_modifier == 0
        },
{
}

/// What the selections make of the style of a character: only its background changes. It is that of
/// a cursor where any range has its head, that of a selection where otherwise any range covers the
/// character, and otherwise its own.
pub proof fn lemma_selections_mark(base: Style, selections: Seq<Range>, index: int)
    ensures
        selection_style(base, selections, index).fg == base.fg,
        selection_style(base, selections, index).add_modifier == base.add_modifier,
        selection_style(base, selections, index).sub_modifier == base.sub_modifier,
        forall|j: int|
            0 <= j < selections.len() && (#[trigger] selections[j]).head == index
                ==> selection_style(base, selections, index).bg == Some(
                CellColor::Rgb(255, 255, 255),
            ),
        forall|j: int|
            0 <= j < selections.len() && (#[trigger] selections[j]).from <= index
                < selections[j].to && (forall|i: int|
                0 <= i < selections.len() ==> (#[trigger] selections[i]).head != index)
                ==> selection_style(base, selections, index).bg == Some(
                CellColor::Rgb(128, 47, 0),
            ),
        (forall|j: int|
            0 <= j < selections.len() ==> (#[trigger] selections[j]).head != index && !(
            selections[j].from <= index < selections[j].to)) ==> selection_style(
            base,
            selections,
            index,
        ).bg == base.bg,
{
    assert forall|j: int|
        0 <= j < selections.len() && (#[trigger] selections[j]).from <= index
            < selections[j].to implies is_selected(selections, index) by {
        assert(selections[j].covers(index));
    }
}

/// The look of the character at `index`.
pub fn style_at(base: Style, selections: &Vec<Range>, index: usize) -> (style: Style)
    ensures
        style == selection_style(base, selections@, index as int),
        // Only the background depends on the selections.
        style.fg == base.fg,
        style.add_modifier == base.add_modifier,
        style.sub_modifier == base.sub_modifier,
{
    let mut selected = false;
    let mut head = false;
    let mut i: usize = 0;
    while i < selections.len()
        invariant
            i <= selections.len(),
            selected <==> exists|j: int|
                0 <= j < i && (#[trigger] selections@[j]).covers(index as int),
            head <==> exists|j: int| 0 <= j < i && (#[trigger] selections@[j]).head == index,
        decreases selections.len() - i,
    {
        if selections[i].contains(index) {
            selected = true;
        }
        if selections[i].head == index {
            head = true;
        }
        i = i + 1;
    }
    if head {
        base.bg(CellColor::Rgb(255, 255, 255))
    } else if selected {
        base.bg(CellColor::Rgb(128, 47, 0))
    } else {
        base
    }
}

/// The bytes of the visible lines: from the start of the first one to the end of the last one.
pub fn visible_bytes(
    first_line_start: usize,
    last_line_start: usize,
    last_line_len: usize,
) -> (range: ByteRange)
    requires
        last_line_start + last_line_len <= usize::MAX,
    ensures
        range.start == first_line_start,
        range.end == last_line_start + last_line_len,
{
    ByteRange { start: first_line_start, end: last_line_start + last_line_len }
}

/// The events for the bytes in `range`: those of the highlighter, or where the document has none,
/// the whole range as plain source.
pub fn highlights_or_plain(
    highlighted: Option<Vec<HighlightEvent<ByteRange>>>,
    range: ByteRange,
) -> (events: Vec<HighlightEvent<ByteRange>>)
    ensures
        match highlighted {
            Some(highlights) => events == highlights,
            None => events@ == seq![HighlightEvent::Source(range)],
        },
{
    match highlighted {
        Some(highlights) => highlights,
        None => {
            let mut events: Vec<HighlightEvent<ByteRange>> = Vec::new();
            events.push(HighlightEvent::Source(range));
            events
        },
    }
}

} // verus!
