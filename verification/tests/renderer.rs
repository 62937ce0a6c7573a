use helix_term::completion::prompt_has_room;
use helix_term::cursor::{Cursor, CursorShape};
use helix_term::document::{
    DocumentView, Grapheme, HighlightEvent, Mode, Position, Range, Text, Theme,
};
use helix_term::prompt::Prompt;
use helix_term::renderer::Renderer;
use helix_term::style::{CellColor, Style};
use helix_term::surface::{Rect, Update};

const LAVENDER: CellColor = CellColor::Rgb(164, 160, 232);
const LILAC: CellColor = CellColor::Rgb(219, 191, 239);

fn source(start: usize, text: &str) -> HighlightEvent<Text> {
    HighlightEvent::Source(Text {
        start,
        graphemes: text
            .chars()
            .map(|c| Grapheme {
                text: c.to_string(),
                width: if c == '\u{30b3}' { 2 } else { 1 },
            })
            .collect(),
    })
}

fn document(highlights: Vec<HighlightEvent<Text>>) -> DocumentView {
    DocumentView {
        mode: Mode::Normal,
        theme: Theme {
            scopes: vec![
                Style::default().fg(CellColor::Red),
                Style::default().fg(CellColor::Green),
            ],
            background: Style::default(),
            linenr: Style::default().fg(CellColor::Gray),
            statusline: Style::default().bg(CellColor::Blue),
        },
        first_line: 0,
        last_line: 0,
        tab_width: 4,
        highlights,
        selections: vec![],
        path: None,
        cursor: Some(Position { row: 0, col: 0 }),
    }
}

fn prompt(completion: Vec<String>) -> Prompt {
    Prompt {
        prompt: ":".to_string(),
        line: "ab".to_string(),
        cursor: 2,
        completion,
        completion_selection_index: None,
        should_close: false,
    }
}

fn viewport(width: u16, height: u16) -> Rect {
    Rect { x: 6, y: 0, width, height }
}

fn places(updates: &Vec<Update>) -> Vec<(u16, u16, &str)> {
    updates
        .iter()
        .map(|u| (u.x, u.y, u.cell.symbol.as_str()))
        .collect()
}

fn at(updates: &Vec<Update>, x: u16, y: u16) -> &Update {
    updates
        .iter()
        .find(|u| u.x == x && u.y == y)
        .expect("no update there")
}

#[test]
fn a_new_screen_needs_no_change() {
    let mut renderer = Renderer::new((20, 5));
    assert_eq!(renderer.size(), (20, 5));
    assert!(renderer.draw().is_empty());
    renderer.resize(30, 7);
    assert_eq!(renderer.size(), (30, 7));
    assert!(renderer.draw().is_empty());
}

#[test]
fn text_stands_right_of_the_gutter() {
    let mut renderer = Renderer::new((20, 5));
    renderer.render_buffer(&document(vec![source(0, "ab\nc")]), viewport(20, 3));
    let updates = renderer.draw();
    assert_eq!(
        places(&updates),
        vec![(6, 0, "a"), (7, 0, "b"), (6, 1, "c")]
    );
    assert_eq!(updates[0].cell.fg, LAVENDER);
    assert_eq!(updates[0].cell.bg, CellColor::Reset);
}

#[test]
fn tabs_and_wide_graphemes_move_what_follows() {
    let mut renderer = Renderer::new((20, 5));
    renderer.render_buffer(&document(vec![source(0, "a\tb\u{30b3}c\n\td")]), viewport(20, 3));
    let updates = renderer.draw();
    assert_eq!(
        places(&updates),
        vec![
            (6, 0, "a"),
            (11, 0, "b"),
            (12, 0, "\u{30b3}"),
            (14, 0, "c"),
            (10, 1, "d"),
        ]
    );
}

#[test]
fn lines_go_on_from_one_piece_of_source_to_the_next() {
    let mut renderer = Renderer::new((20, 5));
    let events = vec![
        source(0, "ab"),
        HighlightEvent::HighlightStart(1),
        HighlightEvent::HighlightStart(0),
        source(2, "c\n"),
        HighlightEvent::HighlightEnd,
        HighlightEvent::HighlightEnd,
        HighlightEvent::HighlightEnd,
        source(4, "d"),
    ];
    renderer.render_buffer(&document(events), viewport(20, 3));
    let updates = renderer.draw();
    assert_eq!(
        places(&updates),
        vec![(6, 0, "a"), (7, 0, "b"), (8, 0, "c"), (6, 1, "d")]
    );
    assert_eq!(at(&updates, 7, 0).cell.fg, LAVENDER);
    assert_eq!(at(&updates, 8, 0).cell.fg, CellColor::Green);
    assert_eq!(at(&updates, 6, 1).cell.fg, LAVENDER);
}

#[test]
fn text_below_the_viewport_is_not_seen() {
    let mut renderer = Renderer::new((20, 5));
    let view = document(vec![
        source(0, "a\nb\nc"),
        HighlightEvent::HighlightStart(9),
        source(5, "d"),
    ]);
    assert!(view.is_drawable(2));
    assert!(!view.is_drawable(3));
    renderer.render_buffer(&view, viewport(20, 2));
    let updates = renderer.draw();
    assert_eq!(places(&updates), vec![(6, 0, "a"), (6, 1, "b")]);
}

#[test]
fn the_first_row_is_seen_in_any_case() {
    let mut renderer = Renderer::new((20, 2));
    renderer.render_buffer(&document(vec![source(0, "a\nb")]), viewport(20, 0));
    assert_eq!(places(&renderer.draw()), vec![(6, 0, "a")]);
}

#[test]
fn long_lines_end_at_the_right_edge() {
    let mut renderer = Renderer::new((9, 4));
    let text = "x".repeat(70000);
    renderer.render_buffer(&document(vec![source(0, &text), source(70000, "\ny")]), viewport(9, 2));
    assert_eq!(
        places(&renderer.draw()),
        vec![(6, 0, "x"), (7, 0, "x"), (8, 0, "x"), (6, 1, "y")]
    );
}

#[test]
fn selections_and_cursors_are_marked() {
    let mut renderer = Renderer::new((20, 5));
    let mut view = document(vec![source(10, "abcd")]);
    view.selections = vec![Range { from: 11, to: 13, head: 12 }];
    renderer.render_buffer(&view, viewport(20, 3));
    let updates = renderer.draw();
    assert_eq!(at(&updates, 6, 0).cell.bg, CellColor::Reset);
    assert_eq!(at(&updates, 7, 0).cell.bg, CellColor::Rgb(128, 47, 0));
    assert_eq!(at(&updates, 8, 0).cell.bg, CellColor::Rgb(255, 255, 255));
    assert_eq!(at(&updates, 9, 0).cell.bg, CellColor::Reset);
}

#[test]
fn line_numbers_stand_at_the_right_of_five_columns() {
    let mut renderer = Renderer::new((20, 5));
    let mut view = document(vec![]);
    view.first_line = 8;
    view.last_line = 10;
    renderer.render_buffer(&view, viewport(20, 3));
    let updates = renderer.draw();
    assert_eq!(at(&updates, 4, 0).cell.symbol, "9");
    assert_eq!(at(&updates, 3, 0).cell.symbol, " ");
    assert_eq!(at(&updates, 3, 1).cell.symbol, "1");
    assert_eq!(at(&updates, 4, 1).cell.symbol, "0");
    assert_eq!(at(&updates, 0, 0).cell.fg, CellColor::Gray);
    assert!(updates.iter().all(|u| u.x < 5 && u.y < 2));
}

#[test]
fn long_line_numbers_show_their_first_digits() {
    let mut renderer = Renderer::new((20, 5));
    let mut view = document(vec![]);
    view.first_line = 1234566;
    view.last_line = 1234567;
    renderer.render_buffer(&view, viewport(20, 3));
    let updates = renderer.draw();
    assert_eq!(
        places(&updates),
        vec![(0, 0, "1"), (1, 0, "2"), (2, 0, "3"), (3, 0, "4"), (4, 0, "5")]
    );
}

#[test]
fn drawing_a_document_starts_from_the_background() {
    let mut renderer = Renderer::new((20, 5));
    let mut view = document(vec![source(0, "a")]);
    view.theme.background = Style::default().bg(CellColor::Magenta);
    renderer.render_statusline(&view);
    renderer.render_buffer(&view, viewport(20, 3));
    let updates = renderer.draw();
    assert_eq!(updates.len(), 100);
    assert!(updates.iter().all(|u| u.cell.bg == CellColor::Magenta));
    assert_eq!(at(&updates, 1, 3).cell.symbol, " ");
}

#[test]
fn status_line_names_the_mode() {
    for (mode, name) in vec![
        (Mode::Normal, "NOR "),
        (Mode::Insert, "INS "),
        (Mode::Goto, "GOTO"),
    ] {
        let mut renderer = Renderer::new((20, 5));
        let mut view = document(vec![]);
        view.mode = mode;
        renderer.render_statusline(&view);
        let updates = renderer.draw();
        assert_eq!(updates.len(), 20);
        assert!(updates.iter().all(|u| u.y == 3 && u.cell.bg == CellColor::Blue));
        let shown: String = (1..5).map(|x| at(&updates, x, 3).cell.symbol.clone()).collect();
        assert_eq!(shown, name);
        assert_eq!(at(&updates, 1, 3).cell.fg, LILAC);
        assert_eq!(at(&updates, 0, 3).cell.fg, CellColor::Reset);
    }
}

#[test]
fn prompt_without_completions_takes_the_last_row() {
    let mut renderer = Renderer::new((20, 5));
    let view = document(vec![]);
    renderer.render_prompt(&view, &prompt(vec![]));
    let updates = renderer.draw();
    assert_eq!(places(&updates), vec![(1, 4, ":"), (2, 4, "a"), (3, 4, "b")]);
    assert_eq!(updates[0].cell.fg, LILAC);
}

#[test]
fn completions_fill_one_column_after_another() {
    let mut renderer = Renderer::new((65, 10));
    let view = document(vec![]);
    let mut p = prompt(vec!["a", "b", "c", "d", "e"].into_iter().map(String::from).collect());
    p.completion_selection_index = Some(3);
    assert!(prompt_has_room((65, 10), &p));
    renderer.render_statusline(&view);
    renderer.render_prompt(&view, &p);
    let updates = renderer.draw();
    let letters: Vec<(u16, u16, &str)> = places(&updates)
        .into_iter()
        .filter(|(_, y, symbol)| *y < 8 && *symbol != " ")
        .collect();
    assert_eq!(
        letters,
        vec![(1, 5, "a"), (31, 5, "d"), (1, 6, "b"), (31, 6, "e"), (1, 7, "c")]
    );
    assert_eq!(at(&updates, 31, 5).cell.bg, CellColor::Rgb(104, 60, 232));
    assert_eq!(at(&updates, 1, 5).cell.bg, CellColor::Blue);
    assert_eq!(at(&updates, 1, 5).cell.fg, LILAC);
    assert_eq!(at(&updates, 64, 6).cell.fg, LILAC);
    assert_eq!(at(&updates, 1, 8).cell.symbol, "N");
    assert!(updates.iter().all(|u| u.y >= 5));
}

#[test]
fn long_completions_are_cut_before_the_next_column() {
    let mut renderer = Renderer::new((65, 10));
    let view = document(vec![]);
    renderer.render_prompt(&view, &prompt(vec!["x".repeat(40), "y".to_string()]));
    let updates = renderer.draw();
    assert_eq!(at(&updates, 29, 7).cell.symbol, "x");
    assert_eq!(at(&updates, 30, 7).cell.symbol, " ");
    assert_eq!(at(&updates, 31, 7).cell.symbol, "y");
}

#[test]
fn prompt_needs_room() {
    let many: Vec<String> = vec!["x".to_string(); 31];
    assert!(prompt_has_room((80, 18), &prompt(many.clone())));
    assert!(!prompt_has_room((80, 17), &prompt(many.clone())));
    assert!(!prompt_has_room((29, 60), &prompt(many)));
    assert!(prompt_has_room((1, 1), &prompt(vec![])));
    assert!(!prompt_has_room((1, 0), &prompt(vec![])));
    assert!(!prompt_has_room((80, 800), &prompt(vec![String::new(); 65536])));
    assert!(prompt_has_room((80, 800), &prompt(vec![String::new(); 65537])));
    assert!(!prompt_has_room((80, 65535), &prompt(vec![String::new(); 65534])));
}

#[test]
fn draw_swaps_the_grids() {
    let mut renderer = Renderer::new((20, 5));
    let view = document(vec![source(0, "ab")]);
    renderer.render_buffer(&view, viewport(20, 3));
    assert_eq!(renderer.draw().len(), 2);
    renderer.render_buffer(&view, viewport(20, 3));
    assert!(renderer.draw().is_empty());
    renderer.render_buffer(&document(vec![source(0, "ac")]), viewport(20, 3));
    assert_eq!(places(&renderer.draw()), vec![(7, 0, "c")]);
    renderer.render_buffer(&document(vec![]), viewport(20, 3));
    assert_eq!(places(&renderer.draw()), vec![(6, 0, " "), (7, 0, " ")]);
}

#[test]
fn cursor_follows_the_document() {
    let mut renderer = Renderer::new((20, 5));
    let mut view = document(vec![]);
    view.cursor = Some(Position { row: 2, col: 3 });
    view.path = Some("a.rs".to_string());
    assert_eq!(
        renderer.render_cursor(&view, None, viewport(20, 3)),
        Cursor { shape: CursorShape::Block, col: 9, row: 2 }
    );
    assert_eq!(
        places(&renderer.draw()),
        vec![(6, 4, "a"), (7, 4, "."), (8, 4, "r"), (9, 4, "s")]
    );
    view.mode = Mode::Insert;
    view.cursor = Some(Position { row: 65538, col: 131072 });
    assert_eq!(
        renderer.render_cursor(&view, None, viewport(20, 3)),
        Cursor { shape: CursorShape::Bar, col: 6, row: 2 }
    );
}

#[test]
fn cursor_follows_the_prompt() {
    let mut renderer = Renderer::new((20, 5));
    let mut view = document(vec![]);
    view.path = Some("a.rs".to_string());
    view.cursor = None;
    view.mode = Mode::Goto;
    assert_eq!(
        renderer.render_cursor(&view, Some(&prompt(vec![])), viewport(20, 3)),
        Cursor { shape: CursorShape::Block, col: 4, row: 20 }
    );
    assert!(renderer.draw().is_empty());
}

#[test]
fn cursor_shapes_have_their_escape_sequences() {
    assert_eq!(CursorShape::Bar.escape(), "\x1B[6 q");
    assert_eq!(CursorShape::Block.escape(), "\x1B[2 q");
    assert_eq!(CursorShape::for_mode(Mode::Insert), CursorShape::Bar);
    assert_eq!(CursorShape::for_mode(Mode::Normal), CursorShape::Block);
}

#[test]
fn a_short_document_has_room_in_a_tall_viewport() {
    let mut renderer = Renderer::new((20, 3));
    renderer.render_buffer(&document(vec![source(0, "a\nb")]), viewport(20, 40));
    assert_eq!(places(&renderer.draw()), vec![(6, 0, "a"), (6, 1, "b")]);
    // Newlines alone take up no room.
    renderer.render_buffer(&document(vec![source(0, "a\n\n\n\n\n")]), viewport(20, 40));
    assert_eq!(places(&renderer.draw()), vec![(6, 1, " ")]);
}

#[test]
fn other_graphemes_do_not_matter_to_a_glyph() {
    let mut renderer = Renderer::new((20, 4));
    let mut view = document(vec![source(0, "x\u{e9}y\u{30b3}z\nw")]);
    view.theme.background = Style::default().bg(CellColor::Magenta);
    view.selections = vec![Range { from: 4, to: 5, head: 9 }];
    renderer.render_buffer(&view, viewport(20, 3));
    let updates = renderer.draw();
    assert_eq!(at(&updates, 6, 0).cell.symbol, "x");
    assert_eq!(at(&updates, 7, 0).cell.symbol, "\u{e9}");
    assert_eq!(at(&updates, 8, 0).cell.symbol, "y");
    assert_eq!(at(&updates, 9, 0).cell.symbol, "\u{30b3}");
    assert_eq!(at(&updates, 11, 0).cell.symbol, "z");
    assert_eq!(at(&updates, 11, 0).cell.bg, CellColor::Rgb(128, 47, 0));
    assert_eq!(at(&updates, 8, 0).cell.bg, CellColor::Magenta);
    assert_eq!(at(&updates, 6, 1).cell.symbol, "w");
    for x in 12..20 {
        assert_eq!(at(&updates, x, 0).cell.symbol, " ");
        assert_eq!(at(&updates, x, 0).cell.bg, CellColor::Magenta);
    }
    for x in 6..20 {
        assert_eq!(at(&updates, x, 3).cell.symbol, " ");
    }
    renderer.render_buffer(&view, viewport(20, 3));
    renderer.draw();
    renderer.render_buffer(&view, viewport(20, 3));
    assert!(renderer.draw().is_empty());
}

#[test]
fn completions_keep_off_each_other() {
    let mut renderer = Renderer::new((65, 10));
    let view = document(vec![]);
    let mut p = prompt(vec!["\u{e9}".repeat(40), "b\u{30b3}".to_string(), "cc".to_string()]);
    p.prompt = "\u{e9}".to_string();
    p.line = "\u{30b3}".to_string();
    renderer.render_prompt(&view, &p);
    let updates = renderer.draw();
    assert_eq!(at(&updates, 29, 6).cell.symbol, "\u{e9}");
    assert_eq!(at(&updates, 30, 6).cell.symbol, " ");
    assert_eq!(at(&updates, 31, 6).cell.symbol, "c");
    assert_eq!(at(&updates, 32, 6).cell.symbol, "c");
    assert_eq!(at(&updates, 33, 6).cell.symbol, " ");
    assert_eq!(at(&updates, 1, 7).cell.symbol, "b");
    assert_eq!(at(&updates, 2, 7).cell.symbol, "\u{30b3}");
    for x in 4..65 {
        assert_eq!(at(&updates, x, 7).cell.symbol, " ");
        assert_eq!(at(&updates, x, 7).cell.bg, CellColor::Blue);
        assert_eq!(at(&updates, x, 7).cell.fg, LILAC);
    }
    assert_eq!(at(&updates, 1, 9).cell.symbol, "\u{e9}");
    assert_eq!(at(&updates, 2, 9).cell.symbol, "\u{30b3}");
    assert!(updates.iter().all(|u| u.y == 6 || u.y == 7 || u.y == 9 && u.x >= 1 && u.x < 4));
}

#[test]
fn the_path_leaves_the_first_columns_alone() {
    let mut renderer = Renderer::new((10, 3));
    let mut view = document(vec![]);
    view.path = Some("\u{e9}\u{30b3}abcdef".to_string());
    renderer.render_cursor(&view, None, viewport(10, 1));
    assert_eq!(
        places(&renderer.draw()),
        vec![(6, 2, "\u{e9}"), (7, 2, "\u{30b3}"), (9, 2, "a")]
    );
}
