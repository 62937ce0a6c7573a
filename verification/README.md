# helix_term

The terminal side of a modal text editor, verified with Verus.

- `src/` is the library. `application` decides what is done about each event and composes a frame;
  `session` states what holds of a whole series of events; `renderer` draws the document, the status
  line and the prompt into a grid of cells and finds the changes between two frames; `layout`,
  `text_area`, `line_numbers` and `completion` say where each thing stands; `surface` is the grid,
  on top of the buffer of the `tui` crate. The functions marked `external_body` in `surface` and
  `prompt` call outside code and are trusted.
- `tests/` runs the library.
- `app/` is the front end: it reads events with `crossterm`, draws with `tui`, and turns the state
  of the editor crates into the plain values of the library. It needs `helix_core` and `helix_view`.
