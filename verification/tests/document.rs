use helix_term::document::{
    highlights_or_plain, style_at, visible_bytes, ByteRange, HighlightEvent, Range,
};
use helix_term::style::{CellColor, Style};
use helix_term::text_area::{newline_count, shown_count};

#[test]
fn range_is_half_open() {
    let range = Range { from: 3, to: 5, head: 5 };
    assert!(!range.contains(2));
    assert!(range.contains(3));
    assert!(range.contains(4));
    assert!(!range.contains(5));
}

#[test]
fn cursor_shows_over_a_selection() {
    let base = Style::default().fg(CellColor::Red);
    let selections = vec![
        Range { from: 3, to: 6, head: 4 },
        Range { from: 8, to: 8, head: 8 },
    ];
    assert_eq!(style_at(base, &selections, 2), base);
    assert_eq!(style_at(base, &selections, 3), base.bg(CellColor::Rgb(128, 47, 0)));
    assert_eq!(style_at(base, &selections, 4), base.bg(CellColor::Rgb(255, 255, 255)));
    assert_eq!(style_at(base, &selections, 8), base.bg(CellColor::Rgb(255, 255, 255)));
    assert_eq!(style_at(base, &selections, 4).fg, Some(CellColor::Red));
}

#[test]
fn visible_bytes_reach_to_the_end_of_the_last_line() {
    let range = visible_bytes(10, 40, 7);
    assert_eq!(range, ByteRange { start: 10, end: 47 });
}

#[test]
fn unhighlighted_source_is_one_piece() {
    let range = ByteRange { start: 10, end: 47 };
    let events = highlights_or_plain(None, range);
    assert_eq!(events.len(), 1);
    assert!(matches!(
        events[0],
        HighlightEvent::Source(ByteRange { start: 10, end: 47 })
    ));
    let events = highlights_or_plain(Some(vec![HighlightEvent::HighlightEnd]), range);
    assert_eq!(events.len(), 1);
    assert!(matches!(events[0], HighlightEvent::HighlightEnd));
}

#[test]
fn newlines_are_counted_by_grapheme() {
    assert_eq!(newline_count(""), 0);
    assert_eq!(newline_count("a\nb\n\n"), 3);
    assert_eq!(newline_count("a\r\nb\n\r\n"), 1);
    assert_eq!(newline_count("\r\u{e9}\n"), 1);
}

#[test]
fn events_are_shown_until_the_rows_are_full() {
    assert_eq!(shown_count(&vec![0, 1, 0, 2, 5], 3), 4);
    assert_eq!(shown_count(&vec![0, 1, 0, 2, 5], 4), 5);
    assert_eq!(shown_count(&vec![0, 1, 0, 2, 5], 9), 5);
    assert_eq!(shown_count(&vec![3, 7], 3), 1);
    assert_eq!(shown_count(&vec![0, 0, 1, 1], 0), 3);
    assert_eq!(shown_count(&vec![0, usize::MAX, usize::MAX], 2), 2);
    assert_eq!(shown_count(&vec![], 2), 0);
}
