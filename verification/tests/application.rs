use helix_term::application::{Action, Application, Event, KeyCode};
use helix_term::cursor::{Cursor, CursorShape};
use helix_term::document::{DocumentView, Grapheme, HighlightEvent, Mode, Position, Text, Theme};
use helix_term::prompt::Prompt;
use helix_term::style::Style;

fn document(mode: Mode) -> DocumentView {
    DocumentView {
        mode,
        theme: Theme {
            scopes: vec![],
            background: Style::default(),
            linenr: Style::default(),
            statusline: Style::default(),
        },
        first_line: 0,
        last_line: 1,
        tab_width: 4,
        highlights: vec![HighlightEvent::Source(Text {
            start: 0,
            graphemes: vec![Grapheme { text: "x".to_string(), width: 1 }],
        })],
        selections: vec![],
        path: None,
        cursor: Some(Position { row: 0, col: 1 }),
    }
}

fn prompt(should_close: bool) -> Prompt {
    Prompt {
        prompt: ":".to_string(),
        line: "q".to_string(),
        cursor: 1,
        completion: vec![],
        completion_selection_index: None,
        should_close,
    }
}

fn application(mode: Option<Mode>) -> Application {
    let (mut app, _) = Application::new((40, 8), Vec::<u8>::new());
    app.editor.view = mode.map(document);
    app
}

fn shown(app: &mut Application) -> Vec<(u16, u16, String)> {
    app.render()
        .updates
        .into_iter()
        .filter(|u| u.cell.symbol != " ")
        .map(|u| (u.x, u.y, u.cell.symbol))
        .collect()
}

fn cell(x: u16, y: u16, symbol: &str) -> (u16, u16, String) {
    (x, y, symbol.to_string())
}

const COLON: KeyCode = KeyCode::Char(':');

#[test]
fn the_last_file_is_opened() {
    let (app, file) = Application::new((40, 8), vec!["a", "b"]);
    assert_eq!(file, Some("b"));
    assert!(app.is_running());
    assert!(app.editor.view.is_none());
    assert!(app.prompt.is_none());
    assert_eq!(app.terminal.size(), (40, 8));
    let (_, file) = Application::new((40, 8), Vec::<&str>::new());
    assert_eq!(file, None);
}

#[test]
fn it_runs_until_it_should_close() {
    let mut app = application(None);
    assert!(app.is_running());
    app.editor.should_close = true;
    assert!(!app.is_running());
}

#[test]
fn a_frame_shows_document_and_status_line() {
    let mut app = application(Some(Mode::Insert));
    assert!(app.is_renderable());
    assert_eq!(
        shown(&mut app),
        vec![
            cell(4, 0, "1"),
            cell(6, 0, "x"),
            cell(1, 6, "I"),
            cell(2, 6, "N"),
            cell(3, 6, "S"),
        ]
    );
    let frame = app.render();
    assert!(frame.updates.is_empty());
    assert_eq!(frame.cursor, Cursor { shape: CursorShape::Bar, col: 7, row: 0 });
}

#[test]
fn an_open_prompt_is_shown_and_a_closed_one_goes_away() {
    let mut app = application(Some(Mode::Normal));
    app.render();
    app.prompt = Some(prompt(false));
    assert_eq!(shown(&mut app), vec![cell(1, 7, ":"), cell(2, 7, "q")]);
    assert_eq!(app.render().cursor, Cursor { shape: CursorShape::Block, col: 3, row: 40 });
    assert!(app.prompt.is_some());
    app.prompt = Some(prompt(true));
    let frame = app.render();
    assert!(app.prompt.is_none());
    assert_eq!(frame.updates.len(), 2);
    assert!(frame.updates.iter().all(|u| u.y == 7 && u.cell.symbol == " "));
    assert_eq!(frame.cursor, Cursor { shape: CursorShape::Block, col: 7, row: 0 });
}

#[test]
fn not_every_state_can_be_rendered() {
    assert!(!application(None).is_renderable());
    let mut app = application(Some(Mode::Normal));
    assert!(app.is_renderable());
    app.handle_event(Event::Resize(40, 1));
    assert!(!app.is_renderable());
    app.handle_event(Event::Resize(256, 256));
    assert!(!app.is_renderable());
    app.handle_event(Event::Resize(257, 255));
    assert!(app.is_renderable());
    app.editor.view.as_mut().unwrap().cursor = None;
    assert!(!app.is_renderable());
    app.prompt = Some(prompt(false));
    assert!(app.is_renderable());
    app.prompt = Some(prompt(true));
    assert!(!app.is_renderable());
    let mut app = application(Some(Mode::Normal));
    app.editor.view.as_mut().unwrap().last_line = 9;
    assert!(!app.is_renderable());
    app.editor.view.as_mut().unwrap().last_line = 8;
    assert!(app.is_renderable());
    app.editor
        .view
        .as_mut()
        .unwrap()
        .highlights
        .insert(0, HighlightEvent::HighlightStart(0));
    assert!(!app.is_renderable());
}

#[test]
fn resizing_starts_over() {
    let mut app = application(Some(Mode::Normal));
    app.render();
    assert_eq!(
        app.handle_event(Event::Resize(50, 9)),
        vec![Action::SetViewSize(50, 9), Action::EnsureCursorInView, Action::Render]
    );
    assert_eq!(app.terminal.size(), (50, 9));
    assert_eq!(shown(&mut app).len(), 5);
    let mut app = application(None);
    assert_eq!(app.handle_event(Event::Resize(50, 9)), vec![Action::Render]);
    assert_eq!(app.terminal.size(), (50, 9));
}

#[test]
fn the_prompt_takes_every_key() {
    let mut app = application(Some(Mode::Insert));
    app.prompt = Some(prompt(false));
    for code in vec![COLON, KeyCode::Char('x'), KeyCode::Other] {
        for bound in vec![true, false] {
            assert_eq!(
                app.handle_event(Event::Key { code, bound }),
                vec![Action::PromptInput, Action::Render]
            );
        }
    }
}

#[test]
fn insert_mode_prefers_commands_to_characters() {
    let mut app = application(Some(Mode::Insert));
    assert_eq!(
        app.handle_event(Event::Key { code: KeyCode::Char('x'), bound: true }),
        vec![Action::RunCommand, Action::EnsureCursorInView, Action::Render]
    );
    assert_eq!(
        app.handle_event(Event::Key { code: COLON, bound: false }),
        vec![Action::InsertChar(':'), Action::EnsureCursorInView, Action::Render]
    );
    assert_eq!(
        app.handle_event(Event::Key { code: KeyCode::Other, bound: false }),
        vec![Action::EnsureCursorInView, Action::Render]
    );
}

#[test]
fn normal_mode_opens_the_prompt() {
    let mut app = application(Some(Mode::Normal));
    for bound in vec![true, false] {
        assert_eq!(
            app.handle_event(Event::Key { code: COLON, bound }),
            vec![Action::OpenPrompt, Action::Render]
        );
    }
    assert_eq!(
        app.handle_event(Event::Key { code: KeyCode::Char('x'), bound: true }),
        vec![Action::RunCommand, Action::EnsureCursorInView, Action::Render]
    );
    assert_eq!(
        app.handle_event(Event::Key { code: KeyCode::Char('x'), bound: false }),
        vec![Action::Render]
    );
}

#[test]
fn goto_mode_runs_commands_only() {
    let mut app = application(Some(Mode::Goto));
    assert_eq!(
        app.handle_event(Event::Key { code: COLON, bound: false }),
        vec![Action::Render]
    );
    assert_eq!(
        app.handle_event(Event::Key { code: COLON, bound: true }),
        vec![Action::RunCommand, Action::EnsureCursorInView, Action::Render]
    );
}

#[test]
fn other_events() {
    let mut app = application(None);
    assert_eq!(app.handle_event(Event::Key { code: COLON, bound: true }), vec![]);
    assert_eq!(app.handle_event(Event::Mouse), vec![]);
    assert_eq!(app.handle_event(Event::End), vec![Action::Quit]);
}

#[test]
fn mouse_events_make_no_difference_to_a_session() {
    let key = Event::Key { code: KeyCode::Char('x'), bound: false };
    let without = vec![key, Event::Resize(50, 9), key, Event::End];
    let with = vec![
        Event::Mouse,
        key,
        Event::Mouse,
        Event::Mouse,
        Event::Resize(50, 9),
        key,
        Event::Mouse,
        Event::End,
    ];
    let mut sessions: Vec<Vec<Action>> = vec![];
    for events in vec![without, with] {
        let mut app = application(Some(Mode::Insert));
        let mut actions = vec![];
        for event in events {
            assert!(app.is_running());
            actions.extend(app.handle_event(event));
        }
        assert_eq!(app.terminal.size(), (50, 9));
        sessions.push(actions);
    }
    assert_eq!(sessions[0], sessions[1]);
    let frames = sessions[0].iter().filter(|action| **action == Action::Render).count();
    assert_eq!(frames, 3);
    assert_eq!(sessions[0].last(), Some(&Action::Quit));
}

#[test]
fn text_of_other_scripts_is_shown_in_a_frame() {
    let mut app = application(Some(Mode::Normal));
    if let Some(view) = app.editor.view.as_mut() {
        view.highlights = vec![HighlightEvent::Source(Text {
            start: 0,
            graphemes: vec![
                Grapheme { text: "\u{30b3}".to_string(), width: 2 },
                Grapheme { text: "\u{e9}".to_string(), width: 1 },
                Grapheme { text: "x".to_string(), width: 1 },
            ],
        })];
    }
    assert_eq!(
        shown(&mut app),
        vec![
            cell(4, 0, "1"),
            cell(6, 0, "\u{30b3}"),
            cell(8, 0, "\u{e9}"),
            cell(9, 0, "x"),
            cell(1, 6, "N"),
            cell(2, 6, "O"),
            cell(3, 6, "R"),
        ]
    );
    app.render();
    assert!(app.render().updates.is_empty());
}
