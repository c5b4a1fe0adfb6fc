//! The embedded terminal's logic: which bytes a key press sends to the pty,
//! how terminal colours resolve to RGB, what is painted for each grid cell
//! and for the cursor, and when the pty must be told of a new size.
//!
//! The terminal emulator's own values (colours, cells, cursor, keys) are
//! mirrored here as plain values; the caller converts.
use vstd::prelude::*;

verus! {

/// Columns of a freshly opened terminal.
pub const DEFAULT_COLS: usize = 80;

/// Rows of a freshly opened terminal.
pub const DEFAULT_ROWS: usize = 24;

/// Bold text is drawn in the bright variant of its named colour.
pub const BOLD_BRIGHT: bool = true;

/// The named colours of a terminal, as the VTE parser reports them.
#[derive(Clone, Copy, Debug, PartialEq, Eq, Structural)]
pub enum NamedColor {
    Black,
    Red,
    Green,
    Yellow,
    Blue,
    Magenta,
    Cyan,
    White,
    BrightBlack,
    BrightRed,
    BrightGreen,
    BrightYellow,
    BrightBlue,
    BrightMagenta,
    BrightCyan,
    BrightWhite,
    Foreground,
    Background,
    Cursor,
    DimBlack,
    DimRed,
    DimGreen,
    DimYellow,
    DimBlue,
    DimMagenta,
    DimCyan,
    DimWhite,
    BrightForeground,
    DimForeground,
}

/// An sRGB colour.
#[derive(Clone, Copy, Debug, PartialEq, Eq, Structural)]
pub struct Rgb8 {
    pub r: u8,
    pub g: u8,
    pub b: u8,
}

/// A cell colour: a named colour, a direct RGB value, or a 256-colour
/// palette index.
#[derive(Clone, Copy, Debug, PartialEq, Eq, Structural)]
pub enum TermColor {
    Named(NamedColor),
    Spec(Rgb8),
    Indexed(u8),
}

/// One step brighter: each normal colour (and the foreground) to its bright
/// twin, each dim colour (and the dim foreground) to its normal twin; every
/// other colour stays as it is.
pub open spec fn bright_spec(c: NamedColor) -> NamedColor {
    match c {
        NamedColor::Foreground => NamedColor::BrightForeground,
        NamedColor::Black => NamedColor::BrightBlack,
        NamedColor::Red => NamedColor::BrightRed,
        NamedColor::Green => NamedColor::BrightGreen,
        NamedColor::Yellow => NamedColor::BrightYellow,
        NamedColor::Blue => NamedColor::BrightBlue,
        NamedColor::Magenta => NamedColor::BrightMagenta,
        NamedColor::Cyan => NamedColor::BrightCyan,
        NamedColor::White => NamedColor::BrightWhite,
        NamedColor::DimForeground => NamedColor::Foreground,
        NamedColor::DimBlack => NamedColor::Black,
        NamedColor::DimRed => NamedColor::Red,
        NamedColor::DimGreen => NamedColor::Green,
        NamedColor::DimYellow => NamedColor::Yellow,
        NamedColor::DimBlue => NamedColor::Blue,
        NamedColor::DimMagenta => NamedColor::Magenta,
        NamedColor::DimCyan => NamedColor::Cyan,
        NamedColor::DimWhite => NamedColor::White,
        other => other,
    }
}

/// The brighter variant of a named colour (see `bright_spec`).
pub fn to_bright(c: NamedColor) -> (r: NamedColor)
    ensures
        r == bright_spec(c),
{
    match c {
        NamedColor::Foreground => NamedColor::BrightForeground,
        NamedColor::Black => NamedColor::BrightBlack,
        NamedColor::Red => NamedColor::BrightRed,
        NamedColor::Green => NamedColor::BrightGreen,
        NamedColor::Yellow => NamedColor::BrightYellow,
        NamedColor::Blue => NamedColor::BrightBlue,
        NamedColor::Magenta => NamedColor::BrightMagenta,
        NamedColor::Cyan => NamedColor::BrightCyan,
        NamedColor::White => NamedColor::BrightWhite,
        NamedColor::DimForeground => NamedColor::Foreground,
        NamedColor::DimBlack => NamedColor::Black,
        NamedColor::DimRed => NamedColor::Red,
        NamedColor::DimGreen => NamedColor::Green,
        NamedColor::DimYellow => NamedColor::Yellow,
        NamedColor::DimBlue => NamedColor::Blue,
        NamedColor::DimMagenta => NamedColor::Magenta,
        NamedColor::DimCyan => NamedColor::Cyan,
        NamedColor::DimWhite => NamedColor::White,
        other => other,
    }
}

pub open spec fn rgb(r: u8, g: u8, b: u8) -> Rgb8 {
    Rgb8 { r, g, b }
}

/// The terminal's own background colour.
pub open spec fn background() -> Rgb8 {
    rgb(0x08, 0x08, 0x0a)
}

pub open spec fn white() -> Rgb8 {
    rgb(0xff, 0xff, 0xff)
}

/// The xterm palette for the named colours.
pub open spec fn named_spec(n: NamedColor) -> Rgb8 {
    match n {
        NamedColor::Black | NamedColor::DimBlack => rgb(0x00, 0x00, 0x00),
        NamedColor::Red | NamedColor::DimRed => rgb(0xcd, 0x00, 0x00),
        NamedColor::Green | NamedColor::DimGreen => rgb(0x00, 0xcd, 0x00),
        NamedColor::Yellow | NamedColor::DimYellow => rgb(0xcd, 0xcd, 0x00),
        NamedColor::Blue | NamedColor::DimBlue => rgb(0x1e, 0x90, 0xff),
        NamedColor::Magenta | NamedColor::DimMagenta => rgb(0xcd, 0x00, 0xcd),
        NamedColor::Cyan | NamedColor::DimCyan => rgb(0x00, 0xcd, 0xcd),
        NamedColor::White | NamedColor::DimWhite => rgb(0xe5, 0xe5, 0xe5),
        NamedColor::BrightBlack => rgb(0x7f, 0x7f, 0x7f),
        NamedColor::BrightRed => rgb(0xff, 0x00, 0x00),
        NamedColor::BrightGreen => rgb(0x00, 0xff, 0x00),
        NamedColor::BrightYellow => rgb(0xff, 0xff, 0x00),
        NamedColor::BrightBlue => rgb(0x5c, 0x5c, 0xff),
        NamedColor::BrightMagenta => rgb(0xff, 0x00, 0xff),
        NamedColor::BrightCyan => rgb(0x00, 0xff, 0xff),
        NamedColor::BrightWhite => rgb(0xff, 0xff, 0xff),
        NamedColor::Foreground | NamedColor::BrightForeground | NamedColor::DimForeground => rgb(
            0xe5,
            0xe5,
            0xe5,
        ),
        NamedColor::Background => background(),
        NamedColor::Cursor => white(),
    }
}

/// The RGB value of a named colour.
pub fn named_to_color32(n: NamedColor) -> (c: Rgb8)
    ensures
        c == named_spec(n),
{
    match n {
        NamedColor::Black | NamedColor::DimBlack => Rgb8 { r: 0x00, g: 0x00, b: 0x00 },
        NamedColor::Red | NamedColor::DimRed => Rgb8 { r: 0xcd, g: 0x00, b: 0x00 },
        NamedColor::Green | NamedColor::DimGreen => Rgb8 { r: 0x00, g: 0xcd, b: 0x00 },
        NamedColor::Yellow | NamedColor::DimYellow => Rgb8 { r: 0xcd, g: 0xcd, b: 0x00 },
        NamedColor::Blue | NamedColor::DimBlue => Rgb8 { r: 0x1e, g: 0x90, b: 0xff },
        NamedColor::Magenta | NamedColor::DimMagenta => Rgb8 { r: 0xcd, g: 0x00, b: 0xcd },
        NamedColor::Cyan | NamedColor::DimCyan => Rgb8 { r: 0x00, g: 0xcd, b: 0xcd },
        NamedColor::White | NamedColor::DimWhite => Rgb8 { r: 0xe5, g: 0xe5, b: 0xe5 },
        NamedColor::BrightBlack => Rgb8 { r: 0x7f, g: 0x7f, b: 0x7f },
        NamedColor::BrightRed => Rgb8 { r: 0xff, g: 0x00, b: 0x00 },
        NamedColor::BrightGreen => Rgb8 { r: 0x00, g: 0xff, b: 0x00 },
        NamedColor::BrightYellow => Rgb8 { r: 0xff, g: 0xff, b: 0x00 },
        NamedColor::BrightBlue => Rgb8 { r: 0x5c, g: 0x5c, b: 0xff },
        NamedColor::BrightMagenta => Rgb8 { r: 0xff, g: 0x00, b: 0xff },
        NamedColor::BrightCyan => Rgb8 { r: 0x00, g: 0xff, b: 0xff },
        NamedColor::BrightWhite => Rgb8 { r: 0xff, g: 0xff, b: 0xff },
        NamedColor::Foreground | NamedColor::BrightForeground | NamedColor::DimForeground => {
            Rgb8 { r: 0xe5, g: 0xe5, b: 0xe5 }
        },
        NamedColor::Background => Rgb8 { r: 0x08, g: 0x08, b: 0x0a },
        NamedColor::Cursor => Rgb8 { r: 0xff, g: 0xff, b: 0xff },
    }
}

/// Palette indices 0..16 name the standard colours, in order; 15 and above
/// stand for bright white.
pub open spec fn index_named_spec(idx: u8) -> NamedColor {
    if idx == 0 {
        NamedColor::Black
    } else if idx == 1 {
        NamedColor::Red
    } else if idx == 2 {
        NamedColor::Green
    } else if idx == 3 {
        NamedColor::Yellow
    } else if idx == 4 {
        NamedColor::Blue
    } else if idx == 5 {
        NamedColor::Magenta
    } else if idx == 6 {
        NamedColor::Cyan
    } else if idx == 7 {
        NamedColor::White
    } else if idx == 8 {
        NamedColor::BrightBlack
    } else if idx == 9 {
        NamedColor::BrightRed
    } else if idx == 10 {
        NamedColor::BrightGreen
    } else if idx == 11 {
        NamedColor::BrightYellow
    } else if idx == 12 {
        NamedColor::BrightBlue
    } else if idx == 13 {
        NamedColor::BrightMagenta
    } else if idx == 14 {
        NamedColor::BrightCyan
    } else {
        NamedColor::BrightWhite
    }
}

/// The named colour of a low palette index.
pub fn index_to_named(idx: u8) -> (n: NamedColor)
    ensures
        n == index_named_spec(idx),
{
    if idx == 0 {
        NamedColor::Black
    } else if idx == 1 {
        NamedColor::Red
    } else if idx == 2 {
        NamedColor::Green
    } else if idx == 3 {
        NamedColor::Yellow
    } else if idx == 4 {
        NamedColor::Blue
    } else if idx == 5 {
        NamedColor::Magenta
    } else if idx == 6 {
        NamedColor::Cyan
    } else if idx == 7 {
        NamedColor::White
    } else if idx == 8 {
        NamedColor::BrightBlack
    } else if idx == 9 {
        NamedColor::BrightRed
    } else if idx == 10 {
        NamedColor::BrightGreen
    } else if idx == 11 {
        NamedColor::BrightYellow
    } else if idx == 12 {
        NamedColor::BrightBlue
    } else if idx == 13 {
        NamedColor::BrightMagenta
    } else if idx == 14 {
        NamedColor::BrightCyan
    } else {
        NamedColor::BrightWhite
    }
}

/// A level of the 6×6×6 colour cube: 0 is black, then 95, 135, .., 255.
pub open spec fn cube_level(v: int) -> int {
    if v == 0 {
        0
    } else {
        55 + v * 40
    }
}

/// The xterm 256-colour palette: the 16 named colours, the 6×6×6 colour
/// cube, and a 24-step grey ramp.
pub open spec fn indexed_spec(idx: u8) -> Rgb8 {
    if idx < 16 {
        named_spec(index_named_spec(idx))
    } else if idx < 232 {
        let i = idx - 16;
        rgb(
            cube_level(i / 36) as u8,
            cube_level((i % 36) / 6) as u8,
            cube_level(i % 6) as u8,
        )
    } else {
        let level = 8 + (idx - 232) * 10;
        rgb(level as u8, level as u8, level as u8)
    }
}

fn cube(v: u8) -> (r: u8)
    requires
        v < 6,
    ensures
        r == cube_level(v as int),
{
    if v == 0 {
        0
    } else {
        55 + v * 40
    }
}

/// Standard xterm 256-colour palette resolution.
pub fn indexed_to_color32(idx: u8) -> (c: Rgb8)
    ensures
        c == indexed_spec(idx),
{
    if idx < 16 {
        named_to_color32(index_to_named(idx))
    } else if idx < 232 {
        let i = idx - 16;
        Rgb8 { r: cube(i / 36), g: cube((i % 36) / 6), b: cube(i % 6) }
    } else {
        let level = 8 + (idx - 232) * 10;
        Rgb8 { r: level, g: level, b: level }
    }
}

/// The RGB value of a terminal colour; a named colour is brightened first
/// when `brighten`.
pub open spec fn resolve_spec(c: TermColor, brighten: bool) -> Rgb8 {
    match c {
        TermColor::Spec(v) => v,
        TermColor::Indexed(i) => indexed_spec(i),
        TermColor::Named(n) => named_spec(if brighten { bright_spec(n) } else { n }),
    }
}

/// The RGB value of a terminal colour, brightening a named one when asked.
pub fn resolve_color(c: TermColor, brighten: bool) -> (r: Rgb8)
    ensures
        r == resolve_spec(c, brighten),
{
    match c {
        TermColor::Spec(v) => Rgb8 { r: v.r, g: v.g, b: v.b },
        TermColor::Indexed(i) => indexed_to_color32(i),
        TermColor::Named(n) => {
            let n2 = if brighten { to_bright(n) } else { n };
            named_to_color32(n2)
        },
    }
}

} // verus!
