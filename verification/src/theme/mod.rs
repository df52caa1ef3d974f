pub mod builtin;

use vstd::prelude::*;

verus! {

/// A terminal colour: an index into the 256-colour palette, or 24-bit RGB.
#[derive(Debug, Clone, Copy, PartialEq, Eq, Structural)]
pub enum Color {
    Ansi(u8),
    Rgb(u8, u8, u8),
}

/// Text attributes that `apply_style` turns into an SGR sequence.
#[derive(Debug, Clone, Copy, PartialEq, Eq, Structural)]
pub struct Style {
    pub fg: Option<Color>,
    pub bg: Option<Color>,
    pub bold: bool,
    pub italic: bool,
    pub underline: bool,
    pub dim: bool,
}

/// The style with no colour and no attribute.
pub open spec fn plain_style() -> Style {
    Style { fg: None, bg: None, bold: false, italic: false, underline: false, dim: false }
}

impl Default for Style {
    fn default() -> (r: Style)
        ensures
            r == plain_style(),
    {
        Style { fg: None, bg: None, bold: false, italic: false, underline: false, dim: false }
    }
}

/// The styles of every Markdown element kind.
#[derive(Debug, Clone, Copy)]
pub struct Theme {
    pub name: &'static str,
    pub heading1: Style,
    pub heading2: Style,
    pub heading3: Style,
    pub heading4: Style,
    pub text: Style,
    pub emphasis: Style,
    pub strong: Style,
    pub inline_code: Style,
    pub code: Style,
    pub quote_marker: Style,
    pub link_label: Style,
    pub link_url: Style,
    pub rule: Style,
    pub table_header: Style,
    pub table_border: Style,
    pub list_marker: Style,
}

} // verus!
