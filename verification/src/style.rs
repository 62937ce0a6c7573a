//! Colours and styles of screen cells, as plain values.
use vstd::prelude::*;

verus! {

/// A terminal colour.
#[derive(Debug, Clone, Copy, PartialEq, Eq, Structural)]
pub enum CellColor {
    Reset,
    Black,
    Red,
    Green,
    Yellow,
    Blue,
    Magenta,
    Cyan,
    Gray,
    DarkGray,
    LightRed,
    LightGreen,
    LightYellow,
    LightBlue,
    LightMagenta,
    LightCyan,
    White,
    Rgb(u8, u8, u8),
    Indexed(u8),
}

/// The bits of the text modifiers: bold, dim, italic, underlined, slow blink, rapid blink,
/// reversed, hidden and crossed out, from the lowest bit up.
pub const MODIFIERS: u16 = 0x01ff;

/// A change to the look of a cell: a colour that is `None` is left as it is, the modifiers in
/// `add_modifier` are switched on, then those in `sub_modifier` are switched off.
#[derive(Debug, Clone, Copy, PartialEq, Eq, Structural)]
pub struct Style {
    pub fg: Option<CellColor>,
    pub bg: Option<CellColor>,
    pub add_modifier: u16,
    pub sub_modifier: u16,
}

impl Style {
    /// The style that changes nothing.
    pub open spec fn plain() -> Style {
        Style { fg: None, bg: None, add_modifier: 0, sub_modifier: 0 }
    }

    /// `self` with the foreground `color`.
    pub open spec fn with_fg(self, color: CellColor) -> Style {
        Style { fg: Some(color), ..self }
    }

    /// `self` with the background `color`.
    pub open spec fn with_bg(self, color: CellColor) -> Style {
        Style { bg: Some(color), ..self }
    }

    pub fn fg(self, color: CellColor) -> (style: Style)
        ensures
            style == self.with_fg(color),
            style.fg == Some(color),
            style.bg == self.bg,
            style.add_modifier == self.add_modifier,
            style.sub_modifier == self.sub_modifier,
    {
        Style {
            fg: Some(color),
            bg: self.bg,
            add_modifier: self.add_modifier,
            sub_modifier: self.sub_modifier,
        }
    }

    pub fn bg(self, color: CellColor) -> (style: Style)
        ensures
            style == self.with_bg(color),
            style.bg == Some(color),
            style.fg == self.fg,
            style.add_modifier == self.add_modifier,
            style.sub_modifier == self.sub_modifier,
    {
        Style {
            fg: self.fg,
            bg: Some(color),
            add_modifier: self.add_modifier,
            sub_modifier: self.sub_modifier,
        }
    }
}

impl Default for Style {
    fn default() -> (style: Style)
        ensures
            style == Style::plain(),
            style.fg is None,
            style.bg is None,
            style.add_modifier == 0,
            style.sub_modifier == 0,
    {
        Style { fg: None, bg: None, add_modifier: 0, sub_modifier: 0 }
    }
}

} // verus!
