//! The colours of a terminal: named, indexed and direct colours, the palette
//! that a program may change, and the bold and dim variants of a foreground.
use vstd::prelude::*;

verus! {

#[derive(Clone, Copy, Debug, PartialEq, Eq, Structural)]
pub struct Rgb {
    pub r: u8,
    pub g: u8,
    pub b: u8,
}

#[derive(Clone, Copy, Debug, PartialEq, Eq, Structural)]
pub enum NamedColor {
    Black,
    Red,
    Green,
    Yellow,
    Blue,
    Magenta,
    Cyan,
    White,
    BrightBlack,
    BrightRed,
    BrightGreen,
    BrightYellow,
    BrightBlue,
    BrightMagenta,
    BrightCyan,
    BrightWhite,
    Foreground,
    Background,
    Cursor,
    DimBlack,
    DimRed,
    DimGreen,
    DimYellow,
    DimBlue,
    DimMagenta,
    DimCyan,
    DimWhite,
    BrightForeground,
    DimForeground,
}

#[derive(Clone, Copy, Debug, PartialEq, Eq, Structural)]
pub enum AnsiColor {
    Named(NamedColor),
    Spec(Rgb),
    Indexed(u8),
}

/// The attributes of a cell.
#[derive(Clone, Copy, Debug, PartialEq, Eq, Structural)]
pub struct Flags {
    pub bold: bool,
    pub italic: bool,
    pub dim: bool,
    pub inverse: bool,
    pub hidden: bool,
    pub strikeout: bool,
    pub wide_char: bool,
    pub wide_char_spacer: bool,
    pub underline: bool,
    pub double_underline: bool,
    pub undercurl: bool,
    pub dotted_underline: bool,
    pub dashed_underline: bool,
}

impl Flags {
    pub open spec fn none() -> Flags {
        Flags {
            bold: false,
            italic: false,
            dim: false,
            inverse: false,
            hidden: false,
            strikeout: false,
            wide_char: false,
            wide_char_spacer: false,
            underline: false,
            double_underline: false,
            undercurl: false,
            dotted_underline: false,
            dashed_underline: false,
        }
    }

    pub fn empty() -> (flags: Flags)
        ensures
            flags == Flags::none(),
    {
        Flags {
            bold: false,
            italic: false,
            dim: false,
            inverse: false,
            hidden: false,
            strikeout: false,
            wide_char: false,
            wide_char_spacer: false,
            underline: false,
            double_underline: false,
            undercurl: false,
            dotted_underline: false,
            dashed_underline: false,
        }
    }
}

/// How many colours a palette has: 256 by index, then the special ones.
pub const PALETTE_LEN: usize = 269;

/// The colours that a program has set; what it has not set is `None`.
pub struct Colors {
    entries: Vec<Option<Rgb>>,
}

impl Colors {
    /// The colour set at a place of the palette.
    pub closed spec fn at(&self, index: int) -> Option<Rgb> {
        if 0 <= index < self.entries@.len() {
            self.entries@[index]
        } else {
            None
        }
    }

    /// A palette in which nothing is set.
    pub fn new() -> (colors: Colors)
        ensures
            forall|index: int| colors.at(index) is None,
    {
        Colors { entries: Vec::new() }
    }

    pub fn get(&self, index: usize) -> (color: Option<Rgb>)
        ensures
            color == self.at(index as int),
    {
        if index < self.entries.len() {
            self.entries[index]
        } else {
            None
        }
    }

    pub fn set(&mut self, index: usize, color: Option<Rgb>)
        requires
            index < PALETTE_LEN,
        ensures
            final(self).at(index as int) == color,
            forall|other: int| other != index ==> final(self).at(other) == old(self).at(other),
    {
        while self.entries.len() <= index
            invariant
                forall|other: int| self.at(other) == old(self).at(other),
            decreases index + 1 - self.entries@.len(),
        {
            let ghost before = *self;
            self.entries.push(None);
            assert forall|other: int| self.at(other) == old(self).at(other) by {
                assert(before.at(other) == old(self).at(other));
            }
        }
        self.entries.set(index, color);
    }
}

/// The place of a named colour in the palette.
pub open spec fn palette_index(named: NamedColor) -> int {
    match named {
        NamedColor::Black => 0,
        NamedColor::Red => 1,
        NamedColor::Green => 2,
        NamedColor::Yellow => 3,
        NamedColor::Blue => 4,
        NamedColor::Magenta => 5,
        NamedColor::Cyan => 6,
        NamedColor::White => 7,
        NamedColor::BrightBlack => 8,
        NamedColor::BrightRed => 9,
        NamedColor::BrightGreen => 10,
        NamedColor::BrightYellow => 11,
        NamedColor::BrightBlue => 12,
        NamedColor::BrightMagenta => 13,
        NamedColor::BrightCyan => 14,
        NamedColor::BrightWhite => 15,
        NamedColor::Foreground => 256,
        NamedColor::Background => 257,
        NamedColor::Cursor => 258,
        NamedColor::DimBlack => 259,
        NamedColor::DimRed => 260,
        NamedColor::DimGreen => 261,
        NamedColor::DimYellow => 262,
        NamedColor::DimBlue => 263,
        NamedColor::DimMagenta => 264,
        NamedColor::DimCyan => 265,
        NamedColor::DimWhite => 266,
        NamedColor::BrightForeground => 267,
        NamedColor::DimForeground => 268,
    }
}

pub fn named_palette_index(named: NamedColor) -> (index: usize)
    ensures
        index == palette_index(named),
        index < PALETTE_LEN,
{
    match named {
        NamedColor::Black => 0,
        NamedColor::Red => 1,
        NamedColor::Green => 2,
        NamedColor::Yellow => 3,
        NamedColor::Blue => 4,
        NamedColor::Magenta => 5,
        NamedColor::Cyan => 6,
        NamedColor::White => 7,
        NamedColor::BrightBlack => 8,
        NamedColor::BrightRed => 9,
        NamedColor::BrightGreen => 10,
        NamedColor::BrightYellow => 11,
        NamedColor::BrightBlue => 12,
        NamedColor::BrightMagenta => 13,
        NamedColor::BrightCyan => 14,
        NamedColor::BrightWhite => 15,
        NamedColor::Foreground => 256,
        NamedColor::Background => 257,
        NamedColor::Cursor => 258,
        NamedColor::DimBlack => 259,
        NamedColor::DimRed => 260,
        NamedColor::DimGreen => 261,
        NamedColor::DimYellow => 262,
        NamedColor::DimBlue => 263,
        NamedColor::DimMagenta => 264,
        NamedColor::DimCyan => 265,
        NamedColor::DimWhite => 266,
        NamedColor::BrightForeground => 267,
        NamedColor::DimForeground => 268,
    }
}

/// The next brighter variant: from dim to plain, and from plain to bright.
pub open spec fn brighter(named: NamedColor) -> NamedColor {
    match named {
        NamedColor::Foreground => NamedColor::BrightForeground,
        NamedColor::Black => NamedColor::BrightBlack,
        NamedColor::Red => NamedColor::BrightRed,
        NamedColor::Green => NamedColor::BrightGreen,
        NamedColor::Yellow => NamedColor::BrightYellow,
        NamedColor::Blue => NamedColor::BrightBlue,
        NamedColor::Magenta => NamedColor::BrightMagenta,
        NamedColor::Cyan => NamedColor::BrightCyan,
        NamedColor::White => NamedColor::BrightWhite,
        NamedColor::DimForeground => NamedColor::Foreground,
        NamedColor::DimBlack => NamedColor::Black,
        NamedColor::DimRed => NamedColor::Red,
        NamedColor::DimGreen => NamedColor::Green,
        NamedColor::DimYellow => NamedColor::Yellow,
        NamedColor::DimBlue => NamedColor::Blue,
        NamedColor::DimMagenta => NamedColor::Magenta,
        NamedColor::DimCyan => NamedColor::Cyan,
        NamedColor::DimWhite => NamedColor::White,
        other => other,
    }
}

/// The next darker variant: from bright to plain, and from plain to dim.
pub open spec fn darker(named: NamedColor) -> NamedColor {
    match named {
        NamedColor::Foreground => NamedColor::DimForeground,
        NamedColor::Black => NamedColor::DimBlack,
        NamedColor::Red => NamedColor::DimRed,
        NamedColor::Green => NamedColor::DimGreen,
        NamedColor::Yellow => NamedColor::DimYellow,
        NamedColor::Blue => NamedColor::DimBlue,
        NamedColor::Magenta => NamedColor::DimMagenta,
        NamedColor::Cyan => NamedColor::DimCyan,
        NamedColor::White => NamedColor::DimWhite,
        NamedColor::BrightForeground => NamedColor::Foreground,
        NamedColor::BrightBlack => NamedColor::Black,
        NamedColor::BrightRed => NamedColor::Red,
        NamedColor::BrightGreen => NamedColor::Green,
        NamedColor::BrightYellow => NamedColor::Yellow,
        NamedColor::BrightBlue => NamedColor::Blue,
        NamedColor::BrightMagenta => NamedColor::Magenta,
        NamedColor::BrightCyan => NamedColor::Cyan,
        NamedColor::BrightWhite => NamedColor::White,
        other => other,
    }
}

impl NamedColor {
    pub fn to_bright(self) -> (r: NamedColor)
        ensures
            r == brighter(self),
    {
        match self {
            NamedColor::Foreground => NamedColor::BrightForeground,
            NamedColor::Black => NamedColor::BrightBlack,
            NamedColor::Red => NamedColor::BrightRed,
            NamedColor::Green => NamedColor::BrightGreen,
            NamedColor::Yellow => NamedColor::BrightYellow,
            NamedColor::Blue => NamedColor::BrightBlue,
            NamedColor::Magenta => NamedColor::BrightMagenta,
            NamedColor::Cyan => NamedColor::BrightCyan,
            NamedColor::White => NamedColor::BrightWhite,
            NamedColor::DimForeground => NamedColor::Foreground,
            NamedColor::DimBlack => NamedColor::Black,
            NamedColor::DimRed => NamedColor::Red,
            NamedColor::DimGreen => NamedColor::Green,
            NamedColor::DimYellow => NamedColor::Yellow,
            NamedColor::DimBlue => NamedColor::Blue,
            NamedColor::DimMagenta => NamedColor::Magenta,
            NamedColor::DimCyan => NamedColor::Cyan,
            NamedColor::DimWhite => NamedColor::White,
            other => other,
        }
    }

    pub fn to_dim(self) -> (r: NamedColor)
        ensures
            r == darker(self),
    {
        match self {
            NamedColor::Foreground => NamedColor::DimForeground,
            NamedColor::Black => NamedColor::DimBlack,
            NamedColor::Red => NamedColor::DimRed,
            NamedColor::Green => NamedColor::DimGreen,
            NamedColor::Yellow => NamedColor::DimYellow,
            NamedColor::Blue => NamedColor::DimBlue,
            NamedColor::Magenta => NamedColor::DimMagenta,
            NamedColor::Cyan => NamedColor::DimCyan,
            NamedColor::White => NamedColor::DimWhite,
            NamedColor::BrightForeground => NamedColor::Foreground,
            NamedColor::BrightBlack => NamedColor::Black,
            NamedColor::BrightRed => NamedColor::Red,
            NamedColor::BrightGreen => NamedColor::Green,
            NamedColor::BrightYellow => NamedColor::Yellow,
            NamedColor::BrightBlue => NamedColor::Blue,
            NamedColor::BrightMagenta => NamedColor::Magenta,
            NamedColor::BrightCyan => NamedColor::Cyan,
            NamedColor::BrightWhite => NamedColor::White,
            other => other,
        }
    }
}

/// Two thirds of the brightness of each channel, as 66 percent rounded down.
pub open spec fn dimmed(rgb: (u8, u8, u8)) -> (u8, u8, u8) {
    (
        (rgb.0 as int * 66 / 100) as u8,
        (rgb.1 as int * 66 / 100) as u8,
        (rgb.2 as int * 66 / 100) as u8,
    )
}

/// The colour that a name stands for where the palette sets none.
pub open spec fn default_named(named: NamedColor) -> (u8, u8, u8) {
    match named {
        NamedColor::Black => (0x1d, 0x1f, 0x21),
        NamedColor::Red => (0xcc, 0x66, 0x66),
        NamedColor::Green => (0xb5, 0xbd, 0x68),
        NamedColor::Yellow => (0xf0, 0xc6, 0x74),
        NamedColor::Blue => (0x81, 0xa2, 0xbe),
        NamedColor::Magenta => (0xb2, 0x94, 0xbb),
        NamedColor::Cyan => (0x8a, 0xbe, 0xb7),
        NamedColor::White => (0xc5, 0xc8, 0xc6),
        NamedColor::BrightBlack => (0x66, 0x66, 0x66),
        NamedColor::BrightRed => (0xd5, 0x4e, 0x53),
        NamedColor::BrightGreen => (0xb9, 0xca, 0x4a),
        NamedColor::BrightYellow => (0xe7, 0xc5, 0x47),
        NamedColor::BrightBlue => (0x7a, 0xa6, 0xda),
        NamedColor::BrightMagenta => (0xc3, 0x97, 0xd8),
        NamedColor::BrightCyan => (0x70, 0xc0, 0xba),
        NamedColor::BrightWhite => (0xea, 0xea, 0xea),
        NamedColor::Foreground => (0xd7, 0xda, 0xe0),
        NamedColor::Background => (0x0f, 0x11, 0x15),
        NamedColor::Cursor => (0x3b, 0x82, 0xf6),
        NamedColor::DimBlack => dimmed((0x1d, 0x1f, 0x21)),
        NamedColor::DimRed => dimmed((0xcc, 0x66, 0x66)),
        NamedColor::DimGreen => dimmed((0xb5, 0xbd, 0x68)),
        NamedColor::DimYellow => dimmed((0xf0, 0xc6, 0x74)),
        NamedColor::DimBlue => dimmed((0x81, 0xa2, 0xbe)),
        NamedColor::DimMagenta => dimmed((0xb2, 0x94, 0xbb)),
        NamedColor::DimCyan => dimmed((0x8a, 0xbe, 0xb7)),
        NamedColor::DimWhite => dimmed((0xc5, 0xc8, 0xc6)),
        NamedColor::BrightForeground => (0xff, 0xff, 0xff),
        NamedColor::DimForeground => dimmed((0xd7, 0xda, 0xe0)),
    }
}

/// The named colour with one of the first sixteen indices.
pub open spec fn standard_color(index: u8) -> NamedColor {
    match index {
        0 => NamedColor::Black,
        1 => NamedColor::Red,
        2 => NamedColor::Green,
        3 => NamedColor::Yellow,
        4 => NamedColor::Blue,
        5 => NamedColor::Magenta,
        6 => NamedColor::Cyan,
        7 => NamedColor::White,
        8 => NamedColor::BrightBlack,
        9 => NamedColor::BrightRed,
        10 => NamedColor::BrightGreen,
        11 => NamedColor::BrightYellow,
        12 => NamedColor::BrightBlue,
        13 => NamedColor::BrightMagenta,
        14 => NamedColor::BrightCyan,
        _ => NamedColor::BrightWhite,
    }
}

/// A channel of the colour cube.
pub open spec fn cube_channel(step: int) -> u8 {
    if step == 0 {
        0
    } else {
        (55 + step * 40) as u8
    }
}

/// The colour with an index where the palette sets none: the sixteen standard
/// colours, a cube of six by six by six, and a ramp of grays.
pub open spec fn default_indexed(index: u8) -> (u8, u8, u8) {
    if index < 16 {
        default_named(standard_color(index))
    } else if index < 232 {
        (
            cube_channel((index - 16) / 36),
            cube_channel(((index - 16) % 36) / 6),
            cube_channel((index - 16) % 6),
        )
    } else {
        let gray = (8 + (index - 232) * 10) as u8;
        (gray, gray, gray)
    }
}

pub open spec fn named_rgb(named: NamedColor, colors: Colors) -> (u8, u8, u8) {
    match colors.at(palette_index(named)) {
        Some(rgb) => (rgb.r, rgb.g, rgb.b),
        None => default_named(named),
    }
}

pub open spec fn indexed_rgb(index: u8, colors: Colors) -> (u8, u8, u8) {
    match colors.at(index as int) {
        Some(rgb) => (rgb.r, rgb.g, rgb.b),
        None => default_indexed(index),
    }
}

/// The variant of a named foreground colour: darker where dim, otherwise
/// brighter where bold.
pub open spec fn named_variant(named: NamedColor, flags: Flags, is_foreground: bool) -> NamedColor {
    if is_foreground && flags.dim {
        darker(named)
    } else if is_foreground && flags.bold {
        brighter(named)
    } else {
        named
    }
}

/// An indexed foreground colour. Where it is dim, a bright colour falls back to
/// its plain one, a plain one to its dim variant, and the others stay.
pub open spec fn indexed_fg_rgb(
    index: u8,
    colors: Colors,
    flags: Flags,
    is_foreground: bool,
) -> (u8, u8, u8) {
    if is_foreground && flags.dim && index < 8 {
        named_rgb(darker(standard_color(index)), colors)
    } else if is_foreground && flags.dim && index < 16 {
        indexed_rgb((index - 8) as u8, colors)
    } else {
        indexed_rgb(index, colors)
    }
}

/// What is painted for a colour.
pub open spec fn resolved_rgb(
    color: AnsiColor,
    colors: Colors,
    flags: Flags,
    is_foreground: bool,
) -> (u8, u8, u8) {
    match color {
        AnsiColor::Spec(rgb) => if is_foreground && flags.dim {
            dimmed((rgb.r, rgb.g, rgb.b))
        } else {
            (rgb.r, rgb.g, rgb.b)
        },
        AnsiColor::Named(named) => named_rgb(named_variant(named, flags, is_foreground), colors),
        AnsiColor::Indexed(index) => indexed_fg_rgb(index, colors, flags, is_foreground),
    }
}

/// What is painted behind a cell: nothing for the default background.
pub open spec fn resolved_bg(color: AnsiColor, colors: Colors) -> Option<(u8, u8, u8)> {
    if color == AnsiColor::Named(NamedColor::Background) {
        None
    } else {
        Some(resolved_rgb(color, colors, Flags::none(), false))
    }
}

pub fn ansi_bg_to_rgb(color: AnsiColor, colors: &Colors) -> (r: Option<(u8, u8, u8)>)
    ensures
        r == resolved_bg(color, *colors),
{
    match color {
        AnsiColor::Named(NamedColor::Background) => None,
        other => Some(ansi_to_rgb(other, colors, Flags::empty(), false)),
    }
}

pub fn ansi_to_rgb(color: AnsiColor, colors: &Colors, flags: Flags, is_foreground: bool) -> (r: (
    u8,
    u8,
    u8,
))
    ensures
        r == resolved_rgb(color, *colors, flags, is_foreground),
{
    match color {
        AnsiColor::Spec(rgb) => {
            if is_foreground && flags.dim {
                dim_rgb((rgb.r, rgb.g, rgb.b))
            } else {
                (rgb.r, rgb.g, rgb.b)
            }
        },
        AnsiColor::Named(named) => named_to_rgb(
            named_color_variant(named, flags, is_foreground),
            colors,
        ),
        AnsiColor::Indexed(index) => indexed_fg_to_rgb(index, colors, flags, is_foreground),
    }
}

/// A colour as one number, red in the highest byte.
pub fn rgb_hex(rgb: (u8, u8, u8)) -> (r: u32)
    ensures
        r == rgb.0 * 65536 + rgb.1 * 256 + rgb.2,
{
    rgb.0 as u32 * 65536 + rgb.1 as u32 * 256 + rgb.2 as u32
}

pub fn indexed_fg_to_rgb(index: u8, colors: &Colors, flags: Flags, is_foreground: bool) -> (r: (
    u8,
    u8,
    u8,
))
    ensures
        r == indexed_fg_rgb(index, *colors, flags, is_foreground),
{
    if !is_foreground || !flags.dim {
        return indexed_to_rgb(index, colors);
    }
    if index < 8 {
        named_to_rgb(dim_variant_of_standard_index(index), colors)
    } else if index < 16 {
        indexed_to_rgb(index - 8, colors)
    } else {
        indexed_to_rgb(index, colors)
    }
}

/// The dim variant of one of the first eight colours.
pub fn dim_variant_of_standard_index(index: u8) -> (r: NamedColor)
    ensures
        index < 8 ==> r == darker(standard_color(index)),
        index >= 8 ==> r == NamedColor::DimWhite,
{
    match index {
        0 => NamedColor::DimBlack,
        1 => NamedColor::DimRed,
        2 => NamedColor::DimGreen,
        3 => NamedColor::DimYellow,
        4 => NamedColor::DimBlue,
        5 => NamedColor::DimMagenta,
        6 => NamedColor::DimCyan,
        _ => NamedColor::DimWhite,
    }
}

pub fn named_color_variant(named: NamedColor, flags: Flags, is_foreground: bool) -> (r: NamedColor)
    ensures
        r == named_variant(named, flags, is_foreground),
{
    if !is_foreground {
        named
    } else if flags.dim {
        named.to_dim()
    } else if flags.bold {
        named.to_bright()
    } else {
        named
    }
}

pub fn named_to_rgb(named: NamedColor, colors: &Colors) -> (r: (u8, u8, u8))
    ensures
        r == named_rgb(named, *colors),
{
    if let Some(rgb) = colors.get(named_palette_index(named)) {
        return (rgb.r, rgb.g, rgb.b);
    }
    default_named_rgb(named)
}

fn default_named_rgb(named: NamedColor) -> (r: (u8, u8, u8))
    ensures
        r == default_named(named),
{
    match named {
        NamedColor::Black => (0x1d, 0x1f, 0x21),
        NamedColor::Red => (0xcc, 0x66, 0x66),
        NamedColor::Green => (0xb5, 0xbd, 0x68),
        NamedColor::Yellow => (0xf0, 0xc6, 0x74),
        NamedColor::Blue => (0x81, 0xa2, 0xbe),
        NamedColor::Magenta => (0xb2, 0x94, 0xbb),
        NamedColor::Cyan => (0x8a, 0xbe, 0xb7),
        NamedColor::White => (0xc5, 0xc8, 0xc6),
        NamedColor::BrightBlack => (0x66, 0x66, 0x66),
        NamedColor::BrightRed => (0xd5, 0x4e, 0x53),
        NamedColor::BrightGreen => (0xb9, 0xca, 0x4a),
        NamedColor::BrightYellow => (0xe7, 0xc5, 0x47),
        NamedColor::BrightBlue => (0x7a, 0xa6, 0xda),
        NamedColor::BrightMagenta => (0xc3, 0x97, 0xd8),
        NamedColor::BrightCyan => (0x70, 0xc0, 0xba),
        NamedColor::BrightWhite => (0xea, 0xea, 0xea),
        NamedColor::Foreground => (0xd7, 0xda, 0xe0),
        NamedColor::Background => (0x0f, 0x11, 0x15),
        NamedColor::Cursor => (0x3b, 0x82, 0xf6),
        NamedColor::DimBlack => dim_rgb((0x1d, 0x1f, 0x21)),
        NamedColor::DimRed => dim_rgb((0xcc, 0x66, 0x66)),
        NamedColor::DimGreen => dim_rgb((0xb5, 0xbd, 0x68)),
        NamedColor::DimYellow => dim_rgb((0xf0, 0xc6, 0x74)),
        NamedColor::DimBlue => dim_rgb((0x81, 0xa2, 0xbe)),
        NamedColor::DimMagenta => dim_rgb((0xb2, 0x94, 0xbb)),
        NamedColor::DimCyan => dim_rgb((0x8a, 0xbe, 0xb7)),
        NamedColor::DimWhite => dim_rgb((0xc5, 0xc8, 0xc6)),
        NamedColor::BrightForeground => (0xff, 0xff, 0xff),
        NamedColor::DimForeground => dim_rgb((0xd7, 0xda, 0xe0)),
    }
}

pub fn indexed_to_rgb(index: u8, colors: &Colors) -> (r: (u8, u8, u8))
    ensures
        r == indexed_rgb(index, *colors),
{
    if let Some(rgb) = colors.get(index as usize) {
        return (rgb.r, rgb.g, rgb.b);
    }
    if index < 16 {
        let named = match index {
            0 => NamedColor::Black,
            1 => NamedColor::Red,
            2 => NamedColor::Green,
            3 => NamedColor::Yellow,
            4 => NamedColor::Blue,
            5 => NamedColor::Magenta,
            6 => NamedColor::Cyan,
            7 => NamedColor::White,
            8 => NamedColor::BrightBlack,
            9 => NamedColor::BrightRed,
            10 => NamedColor::BrightGreen,
            11 => NamedColor::BrightYellow,
            12 => NamedColor::BrightBlue,
            13 => NamedColor::BrightMagenta,
            14 => NamedColor::BrightCyan,
            _ => NamedColor::BrightWhite,
        };
        default_named_rgb(named)
    } else if index < 232 {
        let value: u8 = index - 16;
        (cube_value(value / 36), cube_value((value % 36) / 6), cube_value(value % 6))
    } else {
        let gray: u8 = 8 + (index - 232) * 10;
        (gray, gray, gray)
    }
}

pub fn cube_value(step: u8) -> (r: u8)
    requires
        step <= 5,
    ensures
        r == cube_channel(step as int),
{
    if step == 0 {
        0
    } else {
        55 + step * 40
    }
}

pub fn dim_rgb(rgb: (u8, u8, u8)) -> (r: (u8, u8, u8))
    ensures
        r == dimmed(rgb),
{
    (
        (rgb.0 as u32 * 66 / 100) as u8,
        (rgb.1 as u32 * 66 / 100) as u8,
        (rgb.2 as u32 * 66 / 100) as u8,
    )
}

/// Law: where a cell is both bold and dim, it is painted as dim.
pub proof fn law_dim_overrides_bold(color: AnsiColor, colors: Colors, flags: Flags, fg: bool)
    requires
        flags.dim,
    ensures
        resolved_rgb(color, colors, flags, fg) == resolved_rgb(
            color,
            colors,
            Flags { bold: false, ..flags },
            fg,
        ),
{
}

/// Law: the attributes of a cell do not change its background.
pub proof fn law_background_ignores_attributes(color: AnsiColor, colors: Colors, flags: Flags)
    ensures
        resolved_rgb(color, colors, flags, false) == resolved_rgb(
            color,
            colors,
            Flags::none(),
            false,
        ),
{
}

/// Law: the first sixteen indices are the named colours, also where a program
/// has changed them.
pub proof fn law_standard_indices_are_named_colors(index: u8, colors: Colors)
    requires
        index < 16,
    ensures
        indexed_rgb(index, colors) == named_rgb(standard_color(index), colors),
{
}

/// Law: dimming an indexed foreground is dimming the named colour that it
/// stands for.
pub proof fn law_dim_index_is_dim_name(index: u8, colors: Colors, flags: Flags)
    requires
        index < 16,
        flags.dim,
    ensures
        resolved_rgb(AnsiColor::Indexed(index), colors, flags, true) == resolved_rgb(
            AnsiColor::Named(standard_color(index)),
            colors,
            flags,
            true,
        ),
{
}

/// Law: a colour that is made brighter comes back when it is made darker.
pub proof fn law_darker_undoes_brighter(named: NamedColor)
    ensures
        brighter(named) != named ==> darker(brighter(named)) == named,
        darker(named) != named ==> brighter(darker(named)) == named,
{
}

/// Law: a colour that a program gives by its channels is painted as it is; where
/// the text is dim, each channel at 66 percent, rounded down.
pub proof fn law_given_colors_are_painted(rgb: Rgb, colors: Colors, flags: Flags)
    ensures
        resolved_rgb(AnsiColor::Spec(rgb), colors, flags, false) == (rgb.r, rgb.g, rgb.b),
        !flags.dim ==> resolved_rgb(AnsiColor::Spec(rgb), colors, flags, true) == (
            rgb.r,
            rgb.g,
            rgb.b,
        ),
        flags.dim ==> {
            let (r, g, b) = resolved_rgb(AnsiColor::Spec(rgb), colors, flags, true);
            &&& 100 * r <= 66 * rgb.r < 100 * (r + 1)
            &&& 100 * g <= 66 * rgb.g < 100 * (g + 1)
            &&& 100 * b <= 66 * rgb.b < 100 * (b + 1)
        },
        resolved_bg(AnsiColor::Spec(rgb), colors) == Some((rgb.r, rgb.g, rgb.b)),
{
}

/// Law: what the palette sets at the place of a colour is what is painted for it,
/// by its index and by its name; nothing is painted for the default background.
pub proof fn law_the_palette_comes_first(index: u8, named: NamedColor, colors: Colors, rgb: Rgb)
    ensures
        colors.at(index as int) == Some(rgb) ==> resolved_rgb(
            AnsiColor::Indexed(index),
            colors,
            Flags::none(),
            true,
        ) == (rgb.r, rgb.g, rgb.b),
        colors.at(index as int) == Some(rgb) ==> resolved_bg(AnsiColor::Indexed(index), colors)
            == Some((rgb.r, rgb.g, rgb.b)),
        colors.at(palette_index(named)) == Some(rgb) ==> resolved_rgb(
            AnsiColor::Named(named),
            colors,
            Flags::none(),
            true,
        ) == (rgb.r, rgb.g, rgb.b),
        resolved_bg(AnsiColor::Named(NamedColor::Background), colors) is None,
        named != NamedColor::Background ==> resolved_bg(AnsiColor::Named(named), colors) is Some,
{
}

/// Law: the eight plain names have the places from 0 on in the palette, the bright
/// ones those from 8 on, and the dim ones those from 259 on; the defaults of the
/// text, of what is behind it and of the cursor those from 256 on. Bold text has
/// the bright colour of its name, dim text the dim one.
pub proof fn law_places_of_named_colors(named: NamedColor, flags: Flags)
    ensures
        palette_index(NamedColor::Black) == 0 && palette_index(NamedColor::Red) == 1
            && palette_index(NamedColor::Green) == 2 && palette_index(NamedColor::Yellow) == 3
            && palette_index(NamedColor::Blue) == 4 && palette_index(NamedColor::Magenta) == 5
            && palette_index(NamedColor::Cyan) == 6 && palette_index(NamedColor::White) == 7,
        palette_index(NamedColor::Foreground) == 256 && palette_index(NamedColor::Background) == 257
            && palette_index(NamedColor::Cursor) == 258 && palette_index(
            NamedColor::BrightForeground,
        ) == 267 && palette_index(NamedColor::DimForeground) == 268,
        0 <= palette_index(named) < 8 ==> palette_index(brighter(named)) == palette_index(named) + 8
            && palette_index(darker(named)) == palette_index(named) + 259,
        8 <= palette_index(named) < 16 ==> brighter(named) == named && palette_index(darker(named))
            == palette_index(named) - 8,
        brighter(NamedColor::Foreground) == NamedColor::BrightForeground,
        darker(NamedColor::Foreground) == NamedColor::DimForeground,
        brighter(NamedColor::Background) == NamedColor::Background,
        named_variant(named, flags, false) == named,
        flags.dim ==> named_variant(named, flags, true) == darker(named),
        flags.bold && !flags.dim ==> named_variant(named, flags, true) == brighter(named),
        !flags.bold && !flags.dim ==> named_variant(named, flags, true) == named,
{
}

/// Law: where the palette sets nothing, the indices from 16 on are a cube of six
/// levels of red, green and blue, and those from 232 on grays in steps of ten.
pub proof fn law_colors_of_the_cube(r: int, g: int, b: int, k: int, colors: Colors)
    requires
        0 <= r < 6,
        0 <= g < 6,
        0 <= b < 6,
        0 <= k < 24,
        forall|i: int| colors.at(i) is None,
    ensures
        ({
            let levels = seq![0u8, 95, 135, 175, 215, 255];
            let gray = (8 + 10 * k) as u8;
            let index = (16 + 36 * r + 6 * g + b) as u8;
            &&& indexed_rgb(index, colors) == (levels[r], levels[g], levels[b])
            &&& indexed_rgb((232 + k) as u8, colors) == (gray, gray, gray)
        }),
{
    let index = 16 + 36 * r + 6 * g + b;
    assert((index - 16) / 36 == r);
    assert(((index - 16) % 36) / 6 == g);
    assert((index - 16) % 6 == b);
}

/// Law: the names of the first sixteen indices, and their colours where the
/// palette sets nothing; the dim ones are these at 66 percent.
pub proof fn law_colors_without_a_palette(index: u8, colors: Colors)
    requires
        index < 16,
        forall|i: int| colors.at(i) is None,
    ensures
        palette_index(standard_color(index)) == index,
        indexed_rgb(index, colors) == seq![
            (0x1du8, 0x1fu8, 0x21u8),
            (0xcc, 0x66, 0x66),
            (0xb5, 0xbd, 0x68),
            (0xf0, 0xc6, 0x74),
            (0x81, 0xa2, 0xbe),
            (0xb2, 0x94, 0xbb),
            (0x8a, 0xbe, 0xb7),
            (0xc5, 0xc8, 0xc6),
            (0x66, 0x66, 0x66),
            (0xd5, 0x4e, 0x53),
            (0xb9, 0xca, 0x4a),
            (0xe7, 0xc5, 0x47),
            (0x7a, 0xa6, 0xda),
            (0xc3, 0x97, 0xd8),
            (0x70, 0xc0, 0xba),
            (0xea, 0xea, 0xea),
        ][index as int],
        index < 8 ==> {
            let (r, g, b) = indexed_rgb(index, colors);
            let (dr, dg, db) = named_rgb(darker(standard_color(index)), colors);
            &&& 100 * dr <= 66 * r < 100 * (dr + 1)
            &&& 100 * dg <= 66 * g < 100 * (dg + 1)
            &&& 100 * db <= 66 * b < 100 * (db + 1)
        },
        named_rgb(NamedColor::Foreground, colors) == (0xd7u8, 0xdau8, 0xe0u8),
        named_rgb(NamedColor::Background, colors) == (0x0fu8, 0x11u8, 0x15u8),
        named_rgb(NamedColor::BrightForeground, colors) == (0xffu8, 0xffu8, 0xffu8),
{
}

} // verus!
