//! Colours and the byte order in which a pixel format stores them.

use vstd::prelude::*;

verus! {

/// A colour of three 8-bit channels, without alpha.
#[derive(Clone, Copy, Debug, PartialEq, Eq, Structural)]
pub struct PixelColor {
    pub red: u8,
    pub green: u8,
    pub blue: u8,
}

impl PixelColor {
    pub fn black() -> (color: Self)
        ensures
            color == (PixelColor { red: 0, green: 0, blue: 0 }),
    {
        Self { red: 0, green: 0, blue: 0 }
    }

    pub fn white() -> (color: Self)
        ensures
            color == (PixelColor { red: 255, green: 255, blue: 255 }),
    {
        Self { red: 255, green: 255, blue: 255 }
    }

    pub fn red() -> (color: Self)
        ensures
            color == (PixelColor { red: 255, green: 0, blue: 0 }),
    {
        Self { red: 255, green: 0, blue: 0 }
    }

    pub fn green() -> (color: Self)
        ensures
            color == (PixelColor { red: 0, green: 255, blue: 0 }),
    {
        Self { red: 0, green: 255, blue: 0 }
    }

    pub fn blue() -> (color: Self)
        ensures
            color == (PixelColor { red: 0, green: 0, blue: 255 }),
    {
        Self { red: 0, green: 0, blue: 255 }
    }

    pub fn new(r: u8, g: u8, b: u8) -> (color: Self)
        ensures
            color == (PixelColor { red: r, green: g, blue: b }),
    {
        Self { red: r, green: g, blue: b }
    }
}

/// The channel order of a frame buffer whose pixels take four bytes each:
/// three channels and one reserved byte.
#[derive(Clone, Copy, Debug, PartialEq, Eq, Structural)]
pub enum PixelFormat {
    PixelRGBResv8BitPerColor,
    PixelBGRResv8BitPerColor,
}

impl PixelFormat {
    /// The three bytes that stand for `color` in memory, lowest address first.
    pub open spec fn channels(self, color: PixelColor) -> Seq<u8> {
        match self {
            PixelFormat::PixelRGBResv8BitPerColor => seq![color.red, color.green, color.blue],
            PixelFormat::PixelBGRResv8BitPerColor => seq![color.blue, color.green, color.red],
        }
    }
}

/// The two formats store every colour in opposite byte orders.
pub proof fn lemma_formats_mirror(color: PixelColor)
    ensures
        PixelFormat::PixelRGBResv8BitPerColor.channels(color)
            == PixelFormat::PixelBGRResv8BitPerColor.channels(color).reverse(),
        PixelFormat::PixelBGRResv8BitPerColor.channels(color)
            == PixelFormat::PixelRGBResv8BitPerColor.channels(color).reverse(),
{
    let rgb = PixelFormat::PixelRGBResv8BitPerColor.channels(color);
    let bgr = PixelFormat::PixelBGRResv8BitPerColor.channels(color);
    assert(rgb =~= bgr.reverse());
    assert(bgr =~= rgb.reverse());
}

} // verus!
