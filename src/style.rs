//! Colours and styles of terminal cells.

use vstd::prelude::*;

verus! {

/// A terminal colour, in the palette of the terminal backend.
#[derive(Clone, Copy, Debug, PartialEq, Eq, Structural)]
pub enum Color {
    Reset,
    Black,
    DarkGrey,
    Red,
    DarkRed,
    Green,
    DarkGreen,
    Yellow,
    DarkYellow,
    Blue,
    DarkBlue,
    Magenta,
    DarkMagenta,
    Cyan,
    DarkCyan,
    White,
    Grey,
    Rgb { r: u8, g: u8, b: u8 },
    AnsiValue(u8),
}

/// The style of one cell: colours, and text attributes as a bit set.
#[derive(Clone, Copy, Debug, PartialEq, Eq, Structural)]
pub struct Style {
    pub foreground_color: Option<Color>,
    pub background_color: Option<Color>,
    pub attributes: u32,
}

impl Style {
    /// The default style: no colours and no attributes.
    pub open spec fn spec_default() -> Style {
        Style { foreground_color: None, background_color: None, attributes: 0 }
    }

    pub fn plain() -> (r: Style)
        ensures
            r == Style::spec_default(),
    {
        Style { foreground_color: None, background_color: None, attributes: 0 }
    }
}

impl Default for Style {
    fn default() -> (r: Style)
        ensures
            r == Style::spec_default(),
    {
        Style::plain()
    }
}

/// A colour of an ANSI-styled string.
#[derive(Clone, Copy, Debug, PartialEq, Eq, Structural)]
pub enum Colour {
    Black,
    Red,
    Green,
    Yellow,
    Blue,
    Purple,
    Cyan,
    White,
    Fixed(u8),
    RGB(u8, u8, u8),
}

/// The colours of an ANSI-styled string.
#[derive(Clone, Copy, Debug, PartialEq, Eq, Structural)]
pub struct AnsiStyle {
    pub foreground: Option<Colour>,
    pub background: Option<Colour>,
}

/// A piece of text painted in an ANSI style.
#[derive(Clone, Debug)]
pub struct AnsiString {
    pub style: AnsiStyle,
    pub text: String,
}

/// The terminal colour that an ANSI colour stands for.
pub open spec fn spec_convert_color(c: Colour) -> Color {
    match c {
        Colour::Black => Color::Black,
        Colour::Red => Color::Red,
        Colour::Green => Color::Green,
        Colour::Yellow => Color::Yellow,
        Colour::Blue => Color::Blue,
        Colour::Purple => Color::Magenta,
        Colour::Cyan => Color::Cyan,
        Colour::White => Color::White,
        Colour::Fixed(v) => Color::AnsiValue(v),
        Colour::RGB(r, g, b) => Color::Rgb { r, g, b },
    }
}

pub fn convert_color(c: Colour) -> (r: Color)
    ensures
        r == spec_convert_color(c),
{
    match c {
        Colour::Black => Color::Black,
        Colour::Red => Color::Red,
        Colour::Green => Color::Green,
        Colour::Yellow => Color::Yellow,
        Colour::Blue => Color::Blue,
        Colour::Purple => Color::Magenta,
        Colour::Cyan => Color::Cyan,
        Colour::White => Color::White,
        Colour::Fixed(v) => Color::AnsiValue(v),
        Colour::RGB(r, g, b) => Color::Rgb { r, g, b },
    }
}

pub open spec fn spec_convert_opt(c: Option<Colour>) -> Option<Color> {
    match c {
        Some(x) => Some(spec_convert_color(x)),
        None => None,
    }
}

fn convert_opt(c: Option<Colour>) -> (r: Option<Color>)
    ensures
        r == spec_convert_opt(c),
{
    match c {
        Some(x) => Some(convert_color(x)),
        None => None,
    }
}

/// The cell style of an ANSI style: its colours, and no attributes.
pub open spec fn spec_cell_style(s: AnsiStyle) -> Style {
    Style {
        foreground_color: spec_convert_opt(s.foreground),
        background_color: spec_convert_opt(s.background),
        attributes: 0,
    }
}

pub fn cell_style(s: AnsiStyle) -> (r: Style)
    ensures
        r == spec_cell_style(s),
{
    Style {
        foreground_color: convert_opt(s.foreground),
        background_color: convert_opt(s.background),
        attributes: 0,
    }
}

} // verus!
