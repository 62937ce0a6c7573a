//! The terminal's own cursor.
use crate::document::Mode;
use vstd::prelude::*;

verus! {

/// The shape of the cursor.
#[derive(Debug, Clone, Copy, PartialEq, Eq, Structural)]
pub enum CursorShape {
    Block,
    Bar,
}

/// The shape of the cursor in a mode: a bar where text is inserted.
pub open spec fn mode_shape(mode: Mode) -> CursorShape {
    if mode == Mode::Insert {
        CursorShape::Bar
    } else {
        CursorShape::Block
    }
}

/// The digit that stands for a shape in the escape sequence.
pub open spec fn shape_code(shape: CursorShape) -> char {
    match shape {
        CursorShape::Block => '2',
        CursorShape::Bar => '6',
    }
}

impl CursorShape {
    /// The shape of the cursor in `mode`.
    pub fn for_mode(mode: Mode) -> (shape: CursorShape)
        ensures
            shape == mode_shape(mode),
            shape == CursorShape::Bar <==> mode == Mode::Insert,
    {
        match mode {
            Mode::Insert => CursorShape::Bar,
            _ => CursorShape::Block,
        }
    }

    /// The escape sequence that gives the cursor this shape.
    pub fn escape(self) -> (sequence: &'static str)
        ensures
            sequence@ == seq!['\u{1b}', '[', shape_code(self), ' ', 'q'],
            self == CursorShape::Block ==> sequence@ == seq!['\u{1b}', '[', '2', ' ', 'q'],
            self == CursorShape::Bar ==> sequence@ == seq!['\u{1b}', '[', '6', ' ', 'q'],
    {
        proof {
            reveal_strlit("\u{1b}[2 q");
            reveal_strlit("\u{1b}[6 q");
        }
        let sequence = match self {
            CursorShape::Block => "\u{1b}[2 q",
            CursorShape::Bar => "\u{1b}[6 q",
        };
        assert(sequence@ == seq!['\u{1b}', '[', shape_code(self), ' ', 'q']);
        sequence
    }
}

/// Where the cursor goes, and its shape there.
#[derive(Debug, Clone, Copy, PartialEq, Eq, Structural)]
pub struct Cursor {
    pub shape: CursorShape,
    pub col: u16,
    pub row: u16,
}

/// The lowest 16 bits of `n`.
pub(crate) fn low_bits(n: usize) -> (low: u16)
    ensures
        low == n % 0x1_0000,
{
    assert(n as u16 == n % 0x1_0000) by (bit_vector);
    #[verifier::truncate] (n as u16)
}

} // verus!
