//! The editor as a whole: what it does about each event, and what it puts on the screen.
use crate::completion::{
    asked_cells, completion_height, has_room, panel_cells, prompt_cells, prompt_has_room,
    shows_completions,
};
use crate::cursor::{mode_shape, Cursor, CursorShape};
use crate::document::{DocumentView, Mode};
use crate::layout::OFFSET;
use crate::line_numbers::{line_count, numbered_cells};
use crate::prompt::{grid_rows, Prompt};
use crate::renderer::{
    background_cells, cursor_place, document_cells, lilac, path_cells, statusline_cells, Renderer,
    RendererView,
};
use crate::style::{CellColor, Style};
use crate::surface::{
    at_most_two_wide, blank_cells, bounded_rect, fits, graphemes_of, screen, shows,
    shows_graphemes, update_views, updated_cells, updates_are_due, updates_lead_to, Cells, Rect,
    Update,
};
use vstd::prelude::*;

verus! {

/// What is to be known of the editor: the document that is seen, and whether it was told to close.
#[derive(Debug)]
pub struct Editor {
    pub view: Option<DocumentView>,
    pub should_close: bool,
}

/// What a key stands for: a character, or something else.
#[derive(Debug, Clone, Copy, PartialEq, Eq, Structural)]
pub enum KeyCode {
    Char(char),
    Other,
}

/// What comes from the terminal.
#[derive(Debug, Clone, Copy, PartialEq, Eq, Structural)]
pub enum Event {
    /// The screen has got another size.
    Resize(u16, u16),
    /// A key, and whether a command is bound to it in the mode of the document.
    Key { code: KeyCode, bound: bool },
    Mouse,
    /// Nothing more will come.
    End,
}

/// What is to be done about an event.
#[derive(Debug, Clone, Copy, PartialEq, Eq, Structural)]
pub enum Action {
    /// Tell the document how large the screen is.
    SetViewSize(u16, u16),
    /// Scroll the document until its cursor is seen.
    EnsureCursorInView,
    /// Hand the key to the prompt.
    PromptInput,
    /// Open a prompt for a command.
    OpenPrompt,
    /// Run the command that is bound to the key.
    RunCommand,
    /// Insert a character into the document.
    InsertChar(char),
    /// Draw a frame.
    Render,
    /// Stop.
    Quit,
}

/// What is to be done about a key in a document in the given mode.
pub open spec fn document_key_actions(
    mode: Mode,
    code: KeyCode,
    bound: bool,
) -> Seq<Action> {
    match mode {
        Mode::Insert => if bound {
            seq![Action::RunCommand, Action::EnsureCursorInView, Action::Render]
        } else {
            match code {
                KeyCode::Char(c) => seq![
                    Action::InsertChar(c),
                    Action::EnsureCursorInView,
                    Action::Render,
                ],
                KeyCode::Other => seq![Action::EnsureCursorInView, Action::Render],
            }
        },
        Mode::Normal => if code == KeyCode::Char(':') {
            seq![Action::OpenPrompt, Action::Render]
        } else if bound {
            seq![Action::RunCommand, Action::EnsureCursorInView, Action::Render]
        } else {
            seq![Action::Render]
        },
        Mode::Goto => if bound {
            seq![Action::RunCommand, Action::EnsureCursorInView, Action::Render]
        } else {
            seq![Action::Render]
        },
    }
}

/// What is to be done about an event, in order, where a prompt may be open and a document, in
/// some mode, may be seen. The prompt takes priority.
pub open spec fn event_actions(
    prompt_open: bool,
    mode: Option<Mode>,
    event: Event,
) -> Seq<Action> {
    match event {
        Event::Resize(width, height) => if mode is Some {
            seq![Action::SetViewSize(width, height), Action::EnsureCursorInView, Action::Render]
        } else {
            seq![Action::Render]
        },
        Event::Key { code, bound } => if prompt_open {
            seq![Action::PromptInput, Action::Render]
        } else if mode is Some {
            document_key_actions(mode->0, code, bound)
        } else {
            Seq::empty()
        },
        Event::Mouse => Seq::empty(),
        Event::End => seq![Action::Quit],
    }
}

/// Whatever is done about an event is seen at once: unless nothing is done, or the end has come,
/// a frame is drawn, once and after everything else.
pub proof fn lemma_changes_are_rendered(prompt_open: bool, mode: Option<Mode>, event: Event)
    requires
        event != Event::End,
        event_actions(prompt_open, mode, event).len() > 0,
    ensures
        event_actions(prompt_open, mode, event).last() == Action::Render,
        forall|i: int|
            0 <= i < event_actions(prompt_open, mode, event).len() - 1 ==> #[trigger] event_actions(
                prompt_open,
                mode,
                event,
            )[i] != Action::Render,
{
}

/// Whatever may move the cursor of the document is followed by scrolling to it.
pub proof fn lemma_cursor_is_followed(
    prompt_open: bool,
    mode: Option<Mode>,
    event: Event,
    i: int,
)
    requires
        0 <= i < event_actions(prompt_open, mode, event).len(),
        ({
            let action = event_actions(prompt_open, mode, event)[i];
            action is RunCommand || action is InsertChar || action is SetViewSize
        }),
    ensures
        i + 1 < event_actions(prompt_open, mode, event).len(),
        event_actions(prompt_open, mode, event)[i + 1] == Action::EnsureCursorInView,
{
}

/// While a prompt is open, no key reaches the document and no second prompt is opened.
pub proof fn lemma_prompt_takes_keys(
    mode: Option<Mode>,
    code: KeyCode,
    bound: bool,
)
    ensures
        event_actions(true, mode, Event::Key { code, bound }) == seq![
            Action::PromptInput,
            Action::Render,
        ],
{
}

/// Each action has its own cause, and no other: a typed character is inserted, as it is, where an
/// unbound key comes in insert mode; a command is run where one is bound to the key; a colon opens
/// the prompt in normal mode; an open prompt takes every key; a change of size is passed on; and
/// the end is the only reason to quit.
pub proof fn lemma_actions_have_causes(prompt_open: bool, mode: Option<Mode>, event: Event)
    ensures
        ({
            let actions = event_actions(prompt_open, mode, event);
            let colon = event is Key && event->code == KeyCode::Char(':');
            &&& forall|i: int|
                0 <= i < actions.len() ==> (#[trigger] actions[i] matches Action::InsertChar(d)
                    ==> event == (Event::Key { code: KeyCode::Char(d), bound: false })
                    && !prompt_open && mode == Some(Mode::Insert))
            &&& forall|i: int|
                0 <= i < actions.len() && #[trigger] actions[i] == Action::RunCommand ==> event
                    is Key && event->bound && !prompt_open && mode is Some && !(mode == Some(
                    Mode::Normal,
                ) && colon)
            &&& forall|i: int|
                0 <= i < actions.len() && #[trigger] actions[i] == Action::OpenPrompt ==> colon
                    && !prompt_open && mode == Some(Mode::Normal)
            &&& forall|i: int|
                0 <= i < actions.len() && #[trigger] actions[i] == Action::PromptInput ==> event
                    is Key && prompt_open
            &&& forall|i: int|
                0 <= i < actions.len() ==> (#[trigger] actions[i] matches Action::SetViewSize(
                    width,
                    height,
                ) ==> event == Event::Resize(width, height) && mode is Some)
            &&& forall|i: int|
                0 <= i < actions.len() && #[trigger] actions[i] == Action::EnsureCursorInView
                    ==> mode is Some && (event is Resize || event is Key && !prompt_open && (mode
                    == Some(Mode::Insert) || actions[0] == Action::RunCommand))
            &&& forall|i: int|
                0 <= i < actions.len() && #[trigger] actions[i] == Action::Render ==> event
                    is Resize || event is Key && (prompt_open || mode is Some)
            &&& forall|i: int|
                0 <= i < actions.len() && #[trigger] actions[i] == Action::Quit ==> event
                    == Event::End
        }),
{
}

/// Each cause has its action, in its place: what the event itself calls for comes first, scrolling
/// to the cursor comes right before the frame, the frame comes last, and nothing is done twice.
pub proof fn lemma_causes_have_actions(prompt_open: bool, mode: Option<Mode>, event: Event)
    ensures
        ({
            let actions = event_actions(prompt_open, mode, event);
            let last = actions.len() - 1;
            let colon = event is Key && event->code == KeyCode::Char(':');
            let document_key = event is Key && !prompt_open && mode is Some;
            &&& document_key && !event->bound && mode == Some(Mode::Insert) ==> (event->code
                matches KeyCode::Char(c) ==> actions[0] == Action::InsertChar(c))
            &&& document_key && event->bound && !(mode == Some(Mode::Normal) && colon)
                ==> actions[0] == Action::RunCommand
            &&& document_key && mode == Some(Mode::Normal) && colon ==> actions[0]
                == Action::OpenPrompt
            &&& event is Key && prompt_open ==> actions[0] == Action::PromptInput
            &&& mode is Some ==> (event matches Event::Resize(width, height) ==> actions[0]
                == Action::SetViewSize(width, height))
            &&& event is Resize && mode is Some || document_key && (mode == Some(Mode::Insert)
                || actions[0] == Action::RunCommand) ==> last >= 1 && actions[last - 1]
                == Action::EnsureCursorInView
            &&& event is Resize || event is Key && (prompt_open || mode is Some) ==> last >= 0
                && actions[last] == Action::Render
            &&& event == Event::End ==> actions == seq![Action::Quit]
            &&& event == Event::Mouse ==> actions.len() == 0
            &&& forall|i: int, j: int|
                0 <= i < j < actions.len() ==> #[trigger] actions[i] != #[trigger] actions[j]
        }),
{
}

/// A frame: the changes to the screen, and the cursor.
#[derive(Debug)]
pub struct Frame {
    pub updates: Vec<Update>,
    pub cursor: Cursor,
}

/// The part of the screen for the text of the document: what is right of the line numbers, without
/// the status line and the row of the prompt.
pub open spec fn text_viewport(size: (u16, u16)) -> Rect {
    Rect { x: OFFSET, y: 0, width: size.0, height: (size.1 - 2) as u16 }
}

/// A prompt that is done with is not shown.
pub open spec fn shown_prompt(prompt: Option<Prompt>) -> Option<Prompt> {
    if prompt is Some && !prompt->0.should_close {
        prompt
    } else {
        None
    }
}

/// The number of rows that the completions of the prompt take up, if there is one.
pub open spec fn completions_height(size: (u16, u16), prompt: Option<Prompt>) -> int {
    match prompt {
        Some(prompt) => completion_height(size, prompt),
        None => 0,
    }
}

/// The screen with the document and the status line.
pub open spec fn view_cells(
    size: (u16, u16),
    text_color: Style,
    document: DocumentView,
) -> Cells {
    statusline_cells(document_cells(size, document, size.1 - 2), size, text_color, document)
}

/// What the screen is to show.
pub open spec fn frame_cells(
    size: (u16, u16),
    text_color: Style,
    document: DocumentView,
    prompt: Option<Prompt>,
) -> Cells {
    match prompt {
        Some(prompt) => prompt_cells(
            view_cells(size, text_color, document),
            size,
            text_color,
            document.theme.statusline,
            prompt,
        ),
        None => view_cells(size, text_color, document),
    }
}

/// A frame is the document, with all rows but the last two for its text, under the status line, and
/// over them the prompt, if one is shown. A prompt is shown until it is done with.
pub proof fn lemma_frame_is_layered(
    size: (u16, u16),
    text_color: Style,
    document: DocumentView,
    prompt: Option<Prompt>,
)
    ensures
        prompt is None ==> shown_prompt(prompt) is None,
        prompt matches Some(asked) ==> (asked.should_close ==> shown_prompt(prompt) is None) && (
        !asked.should_close ==> shown_prompt(prompt) == Some(asked)),
        ({
            let view = statusline_cells(
                document_cells(size, document, size.1 - 2),
                size,
                text_color,
                document,
            );
            let frame = frame_cells(size, text_color, document, prompt);
            &&& prompt is None ==> frame == view
            &&& prompt matches Some(asked) ==> frame == prompt_cells(
                view,
                size,
                text_color,
                document.theme.statusline,
                asked,
            )
        }),
{
}

/// The screen without the text of the document and its line numbers.
pub open spec fn bare_cells(
    size: (u16, u16),
    text_color: Style,
    document: DocumentView,
) -> Cells {
    statusline_cells(
        background_cells(size, document.theme.background),
        size,
        text_color,
        document,
    )
}

/// The screen has room for text besides the last two rows, and no more lines are numbered than it
/// has rows for. The document then keeps off the last two rows.
pub open spec fn keeps_last_rows(size: (u16, u16), document: DocumentView) -> bool {
    &&& size.1 >= 3
    &&& line_count(document.first_line, document.last_line) <= size.1 - 2
}

/// The editor in a terminal.
pub struct Application {
    pub editor: Editor,
    pub prompt: Option<Prompt>,
    pub terminal: Renderer,
}

impl Application {
    /// The mode of the document that is seen.
    pub open spec fn mode(self) -> Option<Mode> {
        match self.editor.view {
            Some(document) => Some(document.mode),
            None => None,
        }
    }

    /// A frame can be drawn: a document is seen, it and the prompt have their room on the screen,
    /// and so has the cursor.
    pub open spec fn can_render(self) -> bool {
        let size = self.terminal@.size;
        let prompt = shown_prompt(self.prompt);
        &&& self.terminal.wf()
        &&& fits(size)
        &&& size.1 >= 2
        &&& self.editor.view is Some
        &&& {
            let document = self.editor.view->0;
            let place = cursor_place(size, document, prompt, text_viewport(size));
            &&& document.last_line - document.first_line <= size.1
            &&& document.drawable(size.1 - 2)
            &&& prompt is Some ==> has_room(size, prompt->0)
            &&& prompt is None ==> document.cursor is Some
            &&& place.0 <= usize::MAX
            &&& place.1 <= usize::MAX
        }
    }

    /// An editor with nothing open in a terminal of the given size, and which of the files to open:
    /// the last one.
    pub fn new<F>(size: (u16, u16), files: Vec<F>) -> (result: (Application, Option<F>))
        ensures
            result.0.editor.view is None,
            !result.0.editor.should_close,
            result.0.prompt is None,
            result.0.terminal.wf(),
            result.0.terminal@ == (RendererView {
                size,
                surface: blank_cells(bounded_rect(0, 0, size.0, size.1)),
                cache: blank_cells(bounded_rect(0, 0, size.0, size.1)),
                text_color: Style::plain().with_fg(lilac()),
            }),
            fits(size) ==> bounded_rect(0, 0, size.0, size.1) == screen(size),
            result.0.terminal@.text_color.fg == Some(CellColor::Rgb(219, 191, 239)),
            result.0.terminal@.text_color.bg is None,
            result.1 == if files@.len() > 0 {
                Some(files@.last())
            } else {
                None
            },
    {
        let terminal = Renderer::new(size);
        let mut files = files;
        let file = files.pop();
        (
            Application {
                editor: Editor { view: None, should_close: false },
                prompt: None,
                terminal,
            },
            file,
        )
    }

    /// Events are still waited for.
    pub fn is_running(&self) -> (running: bool)
        ensures
            running == !self.editor.should_close,
    {
        !self.editor.should_close
    }

    /// A frame can be drawn.
    pub fn is_renderable(&self) -> (renderable: bool)
        requires
            self.terminal.wf(),
        ensures
            renderable == self.can_render(),
            // Success is owed where a document is seen on a screen of two rows or more and not too
            // many cells, its lines have their rows and its text its styles, and either the prompt
            // that is shown has its room or the cursor is in view.
            renderable <==> ({
                let size = self.terminal@.size;
                &&& size.0 * size.1 <= u16::MAX
                &&& size.1 >= 2
                &&& self.editor.view matches Some(document) && {
                    &&& document.last_line <= document.first_line + size.1
                    &&& document.drawable(size.1 - 2)
                    &&& if self.prompt is Some && !self.prompt->0.should_close {
                        has_room(size, self.prompt->0) && self.prompt->0.cursor + 2 <= usize::MAX
                    } else {
                        document.cursor is Some && document.cursor->0.col + 6 <= usize::MAX
                    }
                }
            }),
    {
        let size = self.terminal.size();
        assert(size.0 * size.1 <= 0xffff * 0xffff) by (nonlinear_arith)
            requires
                size.0 <= 0xffff,
                size.1 <= 0xffff,
        ;
        let cells: u32 = size.0 as u32 * size.1 as u32;
        if cells > 0xffff || size.1 < 2 {
            return false;
        }
        let document = match &self.editor.view {
            Some(document) => document,
            None => {
                return false;
            },
        };
        if document.last_line > document.first_line && document.last_line - document.first_line
            > size.1 as usize {
            return false;
        }
        if !document.is_drawable(size.1 - 2) {
            return false;
        }
        if let Some(prompt) = &self.prompt {
            if !prompt.should_close {
                return prompt_has_room(size, prompt) && prompt.cursor <= usize::MAX - 2;
            }
        }
        match document.cursor {
            Some(position) => position.col <= usize::MAX - OFFSET as usize,
            None => false,
        }
    }

    /// Draws a frame. A prompt that is done with goes away.
    pub fn render(&mut self) -> (frame: Frame)
        requires
            old(self).can_render(),
        ensures
            final(self).editor == old(self).editor,
            final(self).prompt == shown_prompt(old(self).prompt),
            final(self).terminal.wf(),
            final(self).terminal@ == (RendererView {
                surface: path_cells(
                    old(self).terminal@.cache,
                    old(self).terminal@.size,
                    old(self).terminal@.text_color,
                    old(self).editor.view->0,
                    shown_prompt(old(self).prompt),
                ),
                cache: frame_cells(
                    old(self).terminal@.size,
                    old(self).terminal@.text_color,
                    old(self).editor.view->0,
                    shown_prompt(old(self).prompt),
                ),
                ..old(self).terminal@
            }),
            updates_lead_to(update_views(frame.updates@), final(self).terminal@.cache),
            updates_are_due(
                update_views(frame.updates@),
                old(self).terminal@.cache,
                final(self).terminal@.cache,
                old(self).terminal@.size.0 as int,
            ),
            shows(
                updated_cells(old(self).terminal@.cache, update_views(frame.updates@)),
                final(self).terminal@.cache,
            ),
            // Each update is to a cell, and says what is to be seen there.
            forall|k: int|
                0 <= k < frame.updates@.len() ==> ({
                    let update = #[trigger] frame.updates@[k];
                    let cell = final(self).terminal@.cache[(update.x as int, update.y as int)];
                    &&& update.cell.symbol@ == cell.symbol
                    &&& update.cell.fg == cell.fg
                    &&& update.cell.bg == cell.bg
                    &&& update.cell.modifier == cell.modifier
                }),
            // A frame that is shown already needs no change.
            at_most_two_wide(final(self).terminal@.cache) && old(self).terminal@.cache
                == final(self).terminal@.cache ==> frame.updates@.len() == 0,
            // Above the status line and the completions is the document.
            forall|p: (int, int)|
                #![trigger final(self).terminal@.cache[p]]
                screen(old(self).terminal@.size).covers(p) && p.1 < old(self).terminal@.size.1 - 2
                    - completions_height(
                    old(self).terminal@.size,
                    shown_prompt(old(self).prompt),
                ) ==> final(self).terminal@.cache[p] == document_cells(
                    old(self).terminal@.size,
                    old(self).editor.view->0,
                    old(self).terminal@.size.1 - 2,
                )[p],
            // Above the completions, what is left of the text are the line numbers.
            forall|p: (int, int)|
                #![trigger final(self).terminal@.cache[p]]
                screen(old(self).terminal@.size).covers(p) && p.0 < OFFSET && p.1
                    < old(self).terminal@.size.1 - 2 - completions_height(
                    old(self).terminal@.size,
                    shown_prompt(old(self).prompt),
                ) ==> final(self).terminal@.cache[p] == numbered_cells(
                    background_cells(
                        old(self).terminal@.size,
                        old(self).editor.view->0.theme.background,
                    ),
                    screen(old(self).terminal@.size),
                    old(self).editor.view->0.first_line as nat,
                    line_count(
                        old(self).editor.view->0.first_line,
                        old(self).editor.view->0.last_line,
                    ),
                    old(self).editor.view->0.theme.linenr,
                )[p],
            // The completions of a prompt are seen.
            completions_height(
                old(self).terminal@.size,
                shown_prompt(old(self).prompt),
            ) > 0 ==> ({
                let size = old(self).terminal@.size;
                let prompt = old(self).prompt->0;
                let rows = grid_rows(prompt.completion@.len(), size.0);
                shows_completions(
                    panel_cells(
                        view_cells(size, old(self).terminal@.text_color, old(self).editor.view->0),
                        size,
                        old(self).terminal@.text_color,
                        old(self).editor.view->0.theme.statusline,
                        rows,
                    ),
                    final(self).terminal@.cache,
                    size,
                    old(self).terminal@.text_color,
                    prompt,
                    rows,
                    prompt.completion@.len(),
                )
            }),
            // A prompt starts the last row, and its input is shown after it.
            shown_prompt(old(self).prompt) is Some ==> ({
                let size = old(self).terminal@.size;
                let text_color = old(self).terminal@.text_color;
                let document = old(self).editor.view->0;
                let prompt = old(self).prompt->0;
                let asked = asked_cells(
                    view_cells(size, text_color, document),
                    size,
                    text_color,
                    document.theme.statusline,
                    prompt,
                );
                &&& forall|p: (int, int)|
                    #![trigger final(self).terminal@.cache[p]]
                    screen(size).covers(p) && p.1 == size.1 - 1 && p.0 < 2
                        ==> final(self).terminal@.cache[p] == asked[p]
                &&& shows_graphemes(
                    asked,
                    final(self).terminal@.cache,
                    2,
                    size.1 - 1,
                    graphemes_of(prompt.line@),
                    size.0 - 2,
                    text_color,
                )
            }),
            // The last two rows are for the status line and the prompt.
            forall|p: (int, int)|
                #![trigger final(self).terminal@.cache[p]]
                keeps_last_rows(old(self).terminal@.size, old(self).editor.view->0) && screen(
                    old(self).terminal@.size,
                ).covers(p) && (p.1 == old(self).terminal@.size.1 - 2 || p.1
                    == old(self).terminal@.size.1 - 1 && shown_prompt(old(self).prompt) is None)
                    ==> final(self).terminal@.cache[p] == bare_cells(
                    old(self).terminal@.size,
                    old(self).terminal@.text_color,
                    old(self).editor.view->0,
                )[p],
            frame.cursor.shape == CursorShape::Bar <==> old(self).editor.view->0.mode
                == Mode::Insert,
            // The prompt goes away when it is done with, and otherwise stays.
            old(self).prompt is Some && !old(self).prompt->0.should_close ==> final(self).prompt
                == old(self).prompt && frame.cursor.col == (2 + old(self).prompt->0.cursor)
                % 0x1_0000 && frame.cursor.row == old(self).terminal@.size.0,
            // Without a prompt the cursor is where the document has it, right of the gutter.
            old(self).prompt is None || old(self).prompt->0.should_close ==> final(self).prompt
                is None && frame.cursor.col == (old(self).editor.view->0.cursor->0.col + 6)
                % 0x1_0000 && frame.cursor.row == old(self).editor.view->0.cursor->0.row
                % 0x1_0000,
            // The status line is seen whatever the prompt is.
            forall|p: (int, int)|
                #![trigger final(self).terminal@.cache[p]]
                screen(old(self).terminal@.size).covers(p) && p.1 == old(self).terminal@.size.1 - 2
                    ==> final(self).terminal@.cache[p] == statusline_cells(
                    document_cells(
                        old(self).terminal@.size,
                        old(self).editor.view->0,
                        old(self).terminal@.size.1 - 2,
                    ),
                    old(self).terminal@.size,
                    old(self).terminal@.text_color,
                    old(self).editor.view->0,
                )[p],
            frame.cursor.shape == mode_shape(old(self).editor.view->0.mode),
            frame.cursor.col == cursor_place(
                old(self).terminal@.size,
                old(self).editor.view->0,
                shown_prompt(old(self).prompt),
                text_viewport(old(self).terminal@.size),
            ).0 % 0x1_0000,
            frame.cursor.row == cursor_place(
                old(self).terminal@.size,
                old(self).editor.view->0,
                shown_prompt(old(self).prompt),
                text_viewport(old(self).terminal@.size),
            ).1 % 0x1_0000,
    {
        let size = self.terminal.size();
        assert(size.0 * (size.1 - 2) <= u16::MAX) by (nonlinear_arith)
            requires
                size.0 * size.1 <= u16::MAX,
                size.1 >= 2,
        ;
        let viewport = Rect::new(OFFSET, 0, size.0, size.1 - 2);
        let closing = match &self.prompt {
            Some(prompt) => prompt.should_close,
            None => false,
        };
        if closing {
            self.prompt = None;
        }
        let view = self.editor.view.as_ref();
        let document = view.unwrap();
        self.terminal.render_view(document, viewport);
        proof {
            self.terminal.lemma_grids_fill_screen();
        }
        if let Some(prompt) = &self.prompt {
            self.terminal.render_prompt(document, prompt);
        }
        let updates = self.terminal.draw();
        let cursor = self.terminal.render_cursor(document, self.prompt.as_ref(), viewport);
        Frame { updates, cursor }
    }

    /// What is to be done about an event. The screen is made the right size here.
    pub fn handle_event(&mut self, event: Event) -> (actions: Vec<Action>)
        ensures
            actions@ == event_actions(old(self).prompt is Some, old(self).mode(), event),
            actions@ == event_actions(
                old(self).prompt is Some,
                match old(self).editor.view {
                    Some(document) => Some(document.mode),
                    None => None,
                },
                event,
            ),
            // What is inserted is what was typed, in insert mode and without a prompt.
            forall|i: int|
                0 <= i < actions@.len() ==> (#[trigger] actions@[i] matches Action::InsertChar(d)
                    ==> event == (Event::Key { code: KeyCode::Char(d), bound: false })),
            old(self).prompt is None && old(self).mode() == Some(Mode::Insert) ==> (event
                matches Event::Key { code, bound } ==> (!bound ==> (code matches KeyCode::Char(c)
                ==> actions@[0] == Action::InsertChar(c)))),
            final(self).editor == old(self).editor,
            final(self).prompt == old(self).prompt,
            match event {
                Event::Resize(width, height) => {
                    &&& final(self).terminal.wf()
                    &&& final(self).terminal@ == (RendererView {
                        size: (width, height),
                        surface: blank_cells(bounded_rect(0, 0, width, height)),
                        cache: blank_cells(bounded_rect(0, 0, width, height)),
                        text_color: old(self).terminal@.text_color,
                    })
                    &&& fits((width, height)) ==> bounded_rect(0, 0, width, height) == screen(
                        (width, height),
                    )
                },
                _ => final(self).terminal == old(self).terminal,
            },
    {
        proof {
            lemma_actions_have_causes(self.prompt is Some, self.mode(), event);
            lemma_causes_have_actions(self.prompt is Some, self.mode(), event);
        }
        let mut actions: Vec<Action> = Vec::new();
        match event {
            Event::Resize(width, height) => {
                self.terminal.resize(width, height);
                if self.editor.view.is_some() {
                    actions.push(Action::SetViewSize(width, height));
                    actions.push(Action::EnsureCursorInView);
                }
                actions.push(Action::Render);
            },
            Event::Key { code, bound } => {
                if self.prompt.is_some() {
                    actions.push(Action::PromptInput);
                    actions.push(Action::Render);
                } else if let Some(document) = &self.editor.view {
                    match document.mode {
                        Mode::Insert => {
                            if bound {
                                actions.push(Action::RunCommand);
                            } else if let KeyCode::Char(c) = code {
                                actions.push(Action::InsertChar(c));
                            }
                            actions.push(Action::EnsureCursorInView);
                        },
                        Mode::Normal => {
                            if code == KeyCode::Char(':') {
                                actions.push(Action::OpenPrompt);
                            } else if bound {
                                actions.push(Action::RunCommand);
                                actions.push(Action::EnsureCursorInView);
                            }
                        },
                        Mode::Goto => {
                            if bound {
                                actions.push(Action::RunCommand);
                                actions.push(Action::EnsureCursorInView);
                            }
                        },
                    }
                    actions.push(Action::Render);
                }
            },
            Event::Mouse => {},
            Event::End => {
                actions.push(Action::Quit);
            },
        }
        actions
    }
}

} // verus!
