//! The terminal side of a modal text editor: what is drawn where, what changes on the screen from
//! one frame to the next, and what is done about each event.
//!
//! Everything here works on plain values. Reading the terminal, writing to it and editing text are
//! left to the caller.
pub mod application;
pub mod completion;
pub mod cursor;
pub mod document;
pub mod layout;
pub mod line_numbers;
pub mod prompt;
pub mod renderer;
pub mod session;
pub mod style;
pub mod surface;
pub mod text;
pub mod text_area;
