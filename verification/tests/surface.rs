use helix_term::style::{CellColor, Style};
use helix_term::surface::{is_grapheme_of_width, Rect, Surface, Update};

fn changes(before: &Surface, after: &Surface) -> Vec<(u16, u16, String)> {
    let updates: Vec<Update> = before.diff(after);
    updates
        .into_iter()
        .map(|u| (u.x, u.y, u.cell.symbol))
        .collect()
}

#[test]
fn rect_that_fits_is_kept() {
    assert_eq!(
        Rect::new(3, 4, 80, 24),
        Rect { x: 3, y: 4, width: 80, height: 24 }
    );
    assert_eq!(
        Rect::new(0, 0, 257, 255),
        Rect { x: 0, y: 0, width: 257, height: 255 }
    );
}

#[test]
fn rect_that_is_too_large_is_clipped() {
    let rect = Rect::new(1, 2, 900, 100);
    assert_eq!(rect, Rect { x: 1, y: 2, width: 767, height: 85 });
}

#[test]
fn writes_only_where_it_is_told_to() {
    let mut surface = Surface::empty(Rect::new(0, 0, 4, 2));
    let blank = Surface::empty(Rect::new(0, 0, 4, 2));
    surface.set_stringn(1, 1, "abc", 2, Style::default().bg(CellColor::Red));
    let updates = blank.diff(&surface);
    assert_eq!(updates.len(), 2);
    assert_eq!((updates[0].x, updates[0].y), (1, 1));
    assert_eq!(updates[0].cell.symbol, "a");
    assert_eq!(updates[0].cell.bg, CellColor::Red);
    assert_eq!(updates[0].cell.fg, CellColor::Reset);
    assert_eq!((updates[1].x, updates[1].y), (2, 1));
    assert_eq!(updates[1].cell.symbol, "b");
}

#[test]
fn text_stops_at_the_right_edge() {
    let blank = Surface::empty(Rect::new(0, 0, 4, 2));
    let mut surface = Surface::empty(Rect::new(0, 0, 4, 2));
    surface.set_string(2, 0, "abc", Style::default());
    assert_eq!(
        changes(&blank, &surface),
        vec![(2, 0, "a".to_string()), (3, 0, "b".to_string())]
    );
    let mut surface = Surface::empty(Rect::new(0, 0, 4, 2));
    surface.set_string(4, 0, "abc", Style::default());
    surface.set_string(65535, 1, "abc", Style::default());
    assert_eq!(changes(&blank, &surface), vec![]);
}

#[test]
fn wide_graphemes_take_two_columns() {
    let blank = Surface::empty(Rect::new(0, 0, 5, 1));
    let mut surface = Surface::empty(Rect::new(0, 0, 5, 1));
    surface.set_string(0, 0, "\u{30b3}x\u{30b3}", Style::default());
    assert_eq!(
        changes(&blank, &surface),
        vec![
            (0, 0, "\u{30b3}".to_string()),
            (2, 0, "x".to_string()),
            (3, 0, "\u{30b3}".to_string()),
        ]
    );
    let mut surface = Surface::empty(Rect::new(0, 0, 5, 1));
    surface.set_string(4, 0, "\u{30b3}", Style::default());
    assert_eq!(changes(&blank, &surface), vec![]);
}

#[test]
fn reset_makes_every_cell_blank() {
    let blank = Surface::empty(Rect::new(0, 0, 3, 3));
    let mut surface = Surface::empty(Rect::new(0, 0, 3, 3));
    surface.set_string(0, 0, "abc", Style::default().fg(CellColor::Blue));
    assert_eq!(changes(&blank, &surface).len(), 3);
    surface.reset();
    assert_eq!(changes(&blank, &surface), vec![]);
}

#[test]
fn style_changes_the_cells_of_its_rectangle() {
    let blank = Surface::empty(Rect::new(0, 0, 4, 3));
    let mut surface = Surface::empty(Rect::new(0, 0, 4, 3));
    let bold_italic = Style {
        fg: Some(CellColor::Indexed(7)),
        bg: None,
        add_modifier: 0xf005,
        sub_modifier: 0,
    };
    let not_bold = Style {
        fg: None,
        bg: Some(CellColor::Rgb(1, 2, 3)),
        add_modifier: 0,
        sub_modifier: 0x8001,
    };
    surface.set_style(Rect::new(1, 1, 2, 1), bold_italic);
    surface.set_style(Rect::new(2, 1, 1, 1), not_bold);
    let updates = blank.diff(&surface);
    assert_eq!(updates.len(), 2);
    assert_eq!((updates[0].x, updates[0].y), (1, 1));
    assert_eq!(updates[0].cell.symbol, " ");
    assert_eq!(updates[0].cell.fg, CellColor::Indexed(7));
    assert_eq!(updates[0].cell.bg, CellColor::Reset);
    assert_eq!(updates[0].cell.modifier, 0x0005);
    assert_eq!((updates[1].x, updates[1].y), (2, 1));
    assert_eq!(updates[1].cell.fg, CellColor::Indexed(7));
    assert_eq!(updates[1].cell.bg, CellColor::Rgb(1, 2, 3));
    assert_eq!(updates[1].cell.modifier, 0x0004);
}

#[test]
fn every_color_comes_back() {
    let colors = vec![
        CellColor::Reset,
        CellColor::Black,
        CellColor::Red,
        CellColor::Green,
        CellColor::Yellow,
        CellColor::Blue,
        CellColor::Magenta,
        CellColor::Cyan,
        CellColor::Gray,
        CellColor::DarkGray,
        CellColor::LightRed,
        CellColor::LightGreen,
        CellColor::LightYellow,
        CellColor::LightBlue,
        CellColor::LightMagenta,
        CellColor::LightCyan,
        CellColor::White,
        CellColor::Rgb(9, 8, 7),
        CellColor::Indexed(200),
    ];
    let blank = Surface::empty(Rect::new(0, 0, 2, 1));
    for color in colors {
        let mut surface = Surface::empty(Rect::new(0, 0, 2, 1));
        surface.set_string(1, 0, "x", Style::default().fg(color));
        let updates = blank.diff(&surface);
        assert_eq!(updates.len(), 1);
        assert_eq!(updates[0].cell.fg, color);
        assert_eq!(updates[0].cell.bg, CellColor::Reset);
    }
}

#[test]
fn graphemes_are_told_from_other_text() {
    assert!(is_grapheme_of_width("a", 1));
    assert!(is_grapheme_of_width("\u{e9}", 1));
    assert!(is_grapheme_of_width("e\u{301}", 1));
    assert!(is_grapheme_of_width("\u{30b3}", 2));
    assert!(!is_grapheme_of_width("\u{30b3}", 1));
    assert!(!is_grapheme_of_width("a", 2));
    assert!(!is_grapheme_of_width("ab", 2));
    assert!(!is_grapheme_of_width("\u{e9}\u{e9}", 2));
    assert!(!is_grapheme_of_width("\n", 1));
    assert!(!is_grapheme_of_width("", 0));
}

#[test]
fn a_wide_grapheme_blanks_the_cell_that_it_reaches_over() {
    let red = Style::default().fg(CellColor::Red);
    let mut before = Surface::empty(Rect::new(0, 0, 4, 1));
    before.set_string(0, 0, "abcd", red);
    let mut after = Surface::empty(Rect::new(0, 0, 4, 1));
    after.set_string(0, 0, "abcd", red);
    after.set_string(1, 0, "\u{30b3}", Style::default().bg(CellColor::Blue));
    let updates = before.diff(&after);
    assert_eq!((updates[0].x, updates[0].y), (1, 0));
    assert_eq!(updates[0].cell.symbol, "\u{30b3}");
    assert_eq!(updates[0].cell.fg, CellColor::Red);
    assert_eq!(updates[0].cell.bg, CellColor::Blue);
    // The wide one is overwritten again, and the cell beside it is seen.
    let mut narrow = Surface::empty(Rect::new(0, 0, 4, 1));
    narrow.set_string(0, 0, "abcd", red);
    narrow.set_string(1, 0, "\u{30b3}", Style::default());
    narrow.set_string(1, 0, "x", Style::default());
    assert_eq!(
        changes(&after, &narrow),
        vec![(1, 0, "x".to_string()), (2, 0, " ".to_string())]
    );
}

#[test]
fn the_same_cells_need_no_change() {
    let mut before = Surface::empty(Rect::new(0, 0, 8, 2));
    before.set_string(1, 0, "a\u{30b3}\u{30b3}b\u{e9}", Style::default());
    let mut after = Surface::empty(Rect::new(0, 0, 8, 2));
    after.set_string(1, 0, "a\u{30b3}\u{30b3}b\u{e9}", Style::default());
    assert_eq!(changes(&before, &after), vec![]);
}

#[test]
fn text_reaches_no_further_than_its_graphemes() {
    let mut before = Surface::empty(Rect::new(0, 0, 8, 1));
    before.set_string(0, 0, "........", Style::default());
    let mut after = Surface::empty(Rect::new(0, 0, 8, 1));
    after.set_string(0, 0, "........", Style::default());
    after.set_string(2, 0, "\u{e9}e\u{301}\u{e9}", Style::default());
    assert_eq!(
        changes(&before, &after),
        vec![
            (2, 0, "\u{e9}".to_string()),
            (3, 0, "e\u{301}".to_string()),
            (4, 0, "\u{e9}".to_string()),
        ]
    );
}

#[test]
fn a_newline_takes_up_no_column() {
    let blank = Surface::empty(Rect::new(0, 0, 6, 1));
    let mut surface = Surface::empty(Rect::new(0, 0, 6, 1));
    surface.set_string(1, 0, "a\n\u{e9}\n\nb", Style::default());
    assert_eq!(
        changes(&blank, &surface),
        vec![
            (1, 0, "a".to_string()),
            (2, 0, "\u{e9}".to_string()),
            (3, 0, "b".to_string()),
        ]
    );
}

#[test]
fn nothing_is_written_behind_what_does_not_fit() {
    let blank = Surface::empty(Rect::new(0, 0, 6, 1));
    let mut surface = Surface::empty(Rect::new(0, 0, 6, 1));
    surface.set_stringn(0, 0, "a\u{30b3}bc", 2, Style::default());
    assert_eq!(changes(&blank, &surface), vec![(0, 0, "a".to_string())]);
    surface.set_string(3, 0, "\u{30b3}\u{30b3}x", Style::default());
    assert_eq!(
        changes(&blank, &surface),
        vec![(0, 0, "a".to_string()), (3, 0, "\u{30b3}".to_string())]
    );
}

#[test]
fn cells_that_a_wide_one_reaches_over_are_sent_again() {
    assert!(is_grapheme_of_width("\u{17d8}", 3));
    let mut before = Surface::empty(Rect::new(0, 0, 6, 1));
    before.set_string(0, 0, "\u{17d8}x", Style::default());
    let mut after = Surface::empty(Rect::new(0, 0, 6, 1));
    after.set_string(0, 0, "\u{17d8}x", Style::default());
    assert_eq!(changes(&before, &after), vec![(2, 0, " ".to_string())]);
}
