//! Colours: those of the cells that the layout library draws, and the
//! sixteen-colour palette of the monitors.
use vstd::prelude::*;

verus! {

/// A colour as the layout library gives it for a cell's foreground or
/// background.
#[derive(Debug, Clone, Copy, PartialEq, Eq, Structural)]
pub enum Color {
    /// The terminal's default colour.
    Reset,
    Black,
    Red,
    Green,
    Yellow,
    Blue,
    Magenta,
    Cyan,
    Gray,
    DarkGray,
    LightRed,
    LightGreen,
    LightYellow,
    LightBlue,
    LightMagenta,
    LightCyan,
    White,
    Rgb(u8, u8, u8),
    Indexed(u8),
}

/// A colour of the monitors' palette.
#[derive(Debug, Clone, Copy, PartialEq, Eq, Structural)]
pub enum CCTweakedColor {
    White,
    Orange,
    Magenta,
    LightBlue,
    Yellow,
    Lime,
    Pink,
    Gray,
    Cyan,
    Purple,
    Blue,
    Brown,
    Green,
    Red,
    Black,
}

/// A colour that has no counterpart in the monitors' palette.
#[derive(Debug, Clone, Copy, PartialEq, Eq, Structural)]
pub struct CCTweakedColorConversionError(pub Color);

/// The palette colour that shows `c`, if there is one.
pub open spec fn cctweaked_color(c: Color) -> Option<CCTweakedColor> {
    match c {
        Color::White => Some(CCTweakedColor::White),
        Color::Magenta => Some(CCTweakedColor::Magenta),
        Color::LightBlue => Some(CCTweakedColor::LightBlue),
        Color::Yellow => Some(CCTweakedColor::Yellow),
        Color::Gray => Some(CCTweakedColor::Gray),
        Color::Cyan => Some(CCTweakedColor::Cyan),
        Color::Blue => Some(CCTweakedColor::Blue),
        Color::Green => Some(CCTweakedColor::Green),
        Color::Red => Some(CCTweakedColor::Red),
        Color::Black => Some(CCTweakedColor::Black),
        _ => None,
    }
}

impl vstd::std_specs::convert::TryFromSpecImpl<Color> for CCTweakedColor {
    open spec fn obeys_try_from_spec() -> bool {
        true
    }

    open spec fn try_from_spec(v: Color) -> Result<Self, Self::Error> {
        match cctweaked_color(v) {
            Some(k) => Ok(k),
            None => Err(CCTweakedColorConversionError(v)),
        }
    }
}

impl TryFrom<Color> for CCTweakedColor {
    type Error = CCTweakedColorConversionError;

    /// The palette colour for `value`; an error for the colours that the
    /// palette lacks, `Reset` among them.
    fn try_from(value: Color) -> (r: Result<Self, Self::Error>)
    {
        match value {
            Color::White => Ok(CCTweakedColor::White),
            Color::Magenta => Ok(CCTweakedColor::Magenta),
            Color::LightBlue => Ok(CCTweakedColor::LightBlue),
            Color::Yellow => Ok(CCTweakedColor::Yellow),
            Color::Gray => Ok(CCTweakedColor::Gray),
            Color::Cyan => Ok(CCTweakedColor::Cyan),
            Color::Blue => Ok(CCTweakedColor::Blue),
            Color::Green => Ok(CCTweakedColor::Green),
            Color::Red => Ok(CCTweakedColor::Red),
            Color::Black => Ok(CCTweakedColor::Black),
            other => Err(CCTweakedColorConversionError(other)),
        }
    }
}

} // verus!
