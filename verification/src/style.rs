//! Colours and styles of terminal cells.
use vstd::prelude::*;

verus! {

/// A terminal colour by its name: `Red`, `LightBlue`, `#1E1E2E`, `42` or `Reset`.
#[derive(Debug, PartialEq, Eq)]
pub struct Color {
    pub name: String,
}

impl Clone for Color {
    fn clone(&self) -> (copy: Self)
        ensures
            copy == *self,
    {
        Color { name: self.name.clone() }
    }
}

/// The modifier bit of bold text.
pub const BOLD: u16 = 0x01;

/// The modifier bit of text with its two colours exchanged.
pub const REVERSED: u16 = 0x40;

/// How to paint: what is `None` stays as it was, the bits of `add_modifier` are switched on and
/// those of `sub_modifier` off.
#[derive(Debug, PartialEq, Eq)]
pub struct Style {
    pub fg: Option<Color>,
    pub bg: Option<Color>,
    pub underline_color: Option<Color>,
    pub add_modifier: u16,
    pub sub_modifier: u16,
}

impl Style {
    /// The style with the bits of `modifier` switched on.
    pub open spec fn plus(self, modifier: u16) -> Style {
        Style {
            add_modifier: self.add_modifier | modifier,
            sub_modifier: self.sub_modifier & !modifier,
            ..self
        }
    }

    /// The style on a background of `color`.
    pub open spec fn on(self, color: Color) -> Style {
        Style { bg: Some(color), ..self }
    }

    pub fn add_modifier(self, modifier: u16) -> (style: Style)
        ensures
            style == self.plus(modifier),
    {
        Style {
            fg: self.fg,
            bg: self.bg,
            underline_color: self.underline_color,
            add_modifier: self.add_modifier | modifier,
            sub_modifier: self.sub_modifier & !modifier,
        }
    }

    pub fn bg(self, color: Color) -> (style: Style)
        ensures
            style == self.on(color),
    {
        Style {
            fg: self.fg,
            bg: Some(color),
            underline_color: self.underline_color,
            add_modifier: self.add_modifier,
            sub_modifier: self.sub_modifier,
        }
    }
}

/// The colours of the shell.
#[derive(Debug, PartialEq, Eq)]
pub struct Palette {
    pub text: Color,
    pub panel_bg: Color,
    pub accent: Color,
    pub overlay0: Color,
    pub active_row_bg: Color,
}

} // verus!
