//! The sixteen-colour palette and the packed foreground/background byte.

use vstd::prelude::*;

verus! {

/// A colour of the text-mode palette.
#[derive(Debug, Clone, Copy, PartialEq, Eq, Structural)]
pub enum Color {
    Black,
    Blue,
    Green,
    Cyan,
    Red,
    Magenta,
    Brown,
    LightGray,
    DarkGray,
    LightBlue,
    LightGreen,
    LightCyan,
    LightRed,
    Pink,
    Yellow,
    White,
}

/// The four-bit hardware number of a colour.
pub open spec fn color_number(c: Color) -> u8 {
    match c {
        Color::Black => 0,
        Color::Blue => 1,
        Color::Green => 2,
        Color::Cyan => 3,
        Color::Red => 4,
        Color::Magenta => 5,
        Color::Brown => 6,
        Color::LightGray => 7,
        Color::DarkGray => 8,
        Color::LightBlue => 9,
        Color::LightGreen => 10,
        Color::LightCyan => 11,
        Color::LightRed => 12,
        Color::Pink => 13,
        Color::Yellow => 14,
        Color::White => 15,
    }
}

/// The colour byte of a cell: foreground in the low nibble, background in the high one.
pub open spec fn pack_colors(foreground: Color, background: Color) -> u8 {
    (color_number(background) * 16 + color_number(foreground)) as u8
}

impl Color {
    /// The four-bit hardware number of this colour.
    pub fn code(self) -> (r: u8)
        ensures
            r == color_number(self),
            r < 16,
    {
        match self {
            Color::Black => 0,
            Color::Blue => 1,
            Color::Green => 2,
            Color::Cyan => 3,
            Color::Red => 4,
            Color::Magenta => 5,
            Color::Brown => 6,
            Color::LightGray => 7,
            Color::DarkGray => 8,
            Color::LightBlue => 9,
            Color::LightGreen => 10,
            Color::LightCyan => 11,
            Color::LightRed => 12,
            Color::Pink => 13,
            Color::Yellow => 14,
            Color::White => 15,
        }
    }
}

/// A foreground/background pair packed into the byte that the hardware reads.
#[derive(Debug, Clone, Copy, PartialEq, Eq, Structural)]
pub struct ColorCode(pub u8);

impl ColorCode {
    pub fn new(foreground: Color, background: Color) -> (r: ColorCode)
        ensures
            r.0 == pack_colors(foreground, background),
    {
        let f = foreground.code();
        let b = background.code();
        let packed: u8 = (b << 4u8) | f;
        assert((b << 4u8) | f == b * 16 + f) by (bit_vector)
            requires
                f < 16u8,
                b < 16u8,
        ;
        ColorCode(packed)
    }
}

/// The packed byte gives the foreground back in its low nibble and the
/// background in its high nibble, for every pair of palette colours.
pub proof fn lemma_color_code_nibbles(foreground: Color, background: Color)
    ensures
        pack_colors(foreground, background) & 0x0f == color_number(foreground),
        pack_colors(foreground, background) >> 4u8 == color_number(background),
{
    let f = color_number(foreground);
    let b = color_number(background);
    assert(f < 16 && b < 16);
    assert((((b * 16 + f) as u8) & 0x0f) == f && (((b * 16 + f) as u8) >> 4u8) == b) by (bit_vector)
        requires
            f < 16u8,
            b < 16u8,
    ;
}

} // verus!
