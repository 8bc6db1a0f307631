//! Text in a monospace bitmap font of 8 by 16 pixels per glyph.

use vstd::prelude::*;
use vstd::string::*;
use crate::buffer::FrameBuffer;
use crate::color::PixelColor;
use crate::frame::{
    lemma_paint_nothing, lemma_paint_same_region, lemma_paint_step, lemma_paint_twice,
    lemma_painted_unique, Frame,
};
use crate::writer::PixelWriter;

verus! {

/// Whether a glyph row shows a pixel in column `dx`: bit 7 is the leftmost
/// column, bit 0 the rightmost.
pub open spec fn lit(row: u8, dx: int) -> bool {
    0 <= dx < 8 && (row >> ((7 - dx) as u8)) & 1u8 == 1u8
}

/// The pixels that a glyph shows when its upper left corner is at `(x, y)`;
/// none where there is no glyph.
pub open spec fn glyph_region(x: int, y: int, glyph: Option<Seq<u8>>) -> Set<(int, int)> {
    Set::new(
        |p: (int, int)|
            glyph is Some && 0 <= p.1 - y < 16 && p.1 - y < glyph->0.len() && lit(
                glyph->0[p.1 - y],
                p.0 - x,
            ),
    )
}

/// The pixels that a line of glyphs shows when glyph `i` has its upper left
/// corner at `(x + 8 * i, y)`.
pub open spec fn text_region(x: int, y: int, glyphs: Seq<Option<Seq<u8>>>) -> Set<(int, int)> {
    Set::new(
        |p: (int, int)|
            {
                let i = (p.0 - x) / 8;
                0 <= i < glyphs.len() && glyph_region(x + 8 * i, y, glyphs[i]).contains(p)
            },
    )
}

/// What `write_ascii` has drawn of a glyph when `rows` full rows and the first
/// `cols` columns of the next row are done.
spec fn glyph_progress(x: int, y: int, glyph: Seq<u8>, rows: int, cols: int) -> Set<(int, int)> {
    Set::new(
        |p: (int, int)|
            glyph_region(x, y, Some(glyph)).contains(p) && (p.1 - y < rows || (p.1 - y == rows
                && p.0 - x < cols)),
    )
}

fn shows(row: u8, dx: usize) -> (on: bool)
    requires
        dx < 8,
    ensures
        on == lit(row, dx as int),
{
    let shift = dx as u8;
    assert(((row << shift) & 0x80u8 > 0) == ((row >> ((7 - shift) as u8)) & 1u8 == 1u8))
        by (bit_vector)
        requires
            shift < 8,
    ;
    ((row << shift) & 0x80) > 0
}

/// Where the glyph of `c` starts in a table of 16 bytes per character.
fn glyph_offset(c: char) -> (index: usize)
    ensures
        index == 16 * (c as int),
{
    16 * (c as usize)
}

/// A font whose glyphs are 16 rows of 8 pixels.
pub trait Font {
    /// The 16 rows of the glyph for `c`, top row first, or `None` where the
    /// font has no glyph for it.
    spec fn glyph(&self, c: char) -> Option<Seq<u8>>;

    /// The cell that a character takes: the glyph and a margin of two pixels.
    fn char_size(&self) -> (size: (usize, usize))
    ;

    /// Draws in `fg` the pixels that the glyph for `c` shows at `(x, y)`.
    /// Where the font has no glyph for `c`, nothing is drawn. No pixel is
    /// ever drawn in `bg`.
    fn write_ascii<W: PixelWriter + ?Sized>(
        &self,
        writer: &mut W,
        x: usize,
        y: usize,
        c: char,
        fg: &PixelColor,
        bg: &PixelColor,
    )
        requires
            old(writer).frame().wf(),
            old(writer).frame().covers(glyph_region(x as int, y as int, self.glyph(c))),
        ensures
            old(writer).frame().painted(
                final(writer).frame(),
                glyph_region(x as int, y as int, self.glyph(c)),
                *fg,
            ),
            self.glyph(c) is None ==> final(writer).frame() == old(writer).frame(),
    ;

    /// Draws the characters of `s` from left to right, character `i` at
    /// `(x + 8 * i, y)`.
    fn write_string<W: PixelWriter + ?Sized>(
        &self,
        writer: &mut W,
        x: usize,
        y: usize,
        s: &str,
        fg: &PixelColor,
        bg: &PixelColor,
    )
        requires
            old(writer).frame().wf(),
            s@.len() > 0 ==> x + 8 * (s@.len() - 1) <= usize::MAX,
            old(writer).frame().covers(
                text_region(x as int, y as int, s@.map_values(|c: char| self.glyph(c))),
            ),
        ensures
            old(writer).frame().painted(
                final(writer).frame(),
                text_region(x as int, y as int, s@.map_values(|c: char| self.glyph(c))),
                *fg,
            ),
    {
        let ghost before = writer.frame();
        let ghost glyphs = s@.map_values(|c: char| self.glyph(c));
        let ghost (gx, gy) = (x as int, y as int);
        let len = s.unicode_len();
        proof {
            lemma_paint_nothing(before, text_region(gx, gy, glyphs.take(0)), *fg);
        }
        let mut i: usize = 0;
        while i < len
            invariant
                i <= len,
                len == s@.len(),
                len > 0 ==> x + 8 * (len - 1) <= usize::MAX,
                (gx, gy) == (x as int, y as int),
                glyphs == s@.map_values(|c: char| self.glyph(c)),
                before.wf(),
                before.covers(text_region(gx, gy, glyphs)),
                before.painted(writer.frame(), text_region(gx, gy, glyphs.take(i as int)), *fg),
            decreases len - i,
        {
            let c = s.get_char(i);
            let ghost mid = writer.frame();
            let ghost cell = glyph_region(gx + 8 * i, gy, self.glyph(c));
            proof {
                assert(glyphs[i as int] == self.glyph(c));
                assert forall|px: int, py: int| #[trigger] cell.contains((px, py)) implies mid.contains(
                    px,
                    py,
                ) by {
                    assert((px - gx) / 8 == i);
                    assert(text_region(gx, gy, glyphs).contains((px, py)));
                }
            }
            self.write_ascii(writer, i * 8 + x, y, c, fg, bg);
            proof {
                let done = text_region(gx, gy, glyphs.take(i as int));
                let next = text_region(gx, gy, glyphs.take(i + 1));
                assert forall|px: int, py: int|
                    0 <= px < before.stride && 0 <= py < before.height implies (
                #[trigger] next.contains((px, py)) <==> done.contains((px, py)) || cell.contains(
                    (px, py),
                )) by {
                    let j = (px - gx) / 8;
                    if cell.contains((px, py)) {
                        assert(j == i);
                    }
                }
                lemma_paint_twice(before, mid, writer.frame(), done, cell, *fg, next);
            }
            i += 1;
        }
        proof {
            assert(glyphs.take(i as int) =~= glyphs);
        }
    }
}

/// The built-in font: a table of 16 bytes per character, the glyph of
/// character `c` at offset `16 * c`, each byte one row of 8 pixels.
pub struct ShinonomeFont {
    font: &'static [u8],
}

impl ShinonomeFont {
    #[verifier::type_invariant]
    spec fn whole_glyphs(self) -> bool {
        self.font@.len() % 16 == 0
    }

    /// The glyph table of this font.
    pub closed spec fn table(&self) -> Seq<u8> {
        self.font@
    }

    /// A font over `font`, if the table is made of whole glyphs of 16 bytes;
    /// `None` otherwise.
    pub fn new(font: &'static [u8]) -> (made: Option<Self>)
        ensures
            made is Some <==> font@.len() % 16 == 0,
            made is Some ==> made->0.table() == font@,
    {
        if font.len() % 16 == 0 {
            Some(Self { font })
        } else {
            None
        }
    }

    /// Draws the characters of `s` on a frame buffer, as [`Font::write_string`]
    /// does on any writer.
    pub fn write_string(
        &self,
        writer: &mut FrameBuffer,
        x: usize,
        y: usize,
        s: &str,
        fg: &PixelColor,
        bg: &PixelColor,
    )
        requires
            old(writer)@.wf(),
            s@.len() > 0 ==> x + 8 * (s@.len() - 1) <= usize::MAX,
            old(writer)@.covers(
                text_region(x as int, y as int, s@.map_values(|c: char| self.glyph(c))),
            ),
        ensures
            old(writer)@.painted(
                final(writer)@,
                text_region(x as int, y as int, s@.map_values(|c: char| self.glyph(c))),
                *fg,
            ),
    {
        Font::write_string(self, writer, x, y, s, fg, bg)
    }
}

impl Font for ShinonomeFont {
    open spec fn glyph(&self, c: char) -> Option<Seq<u8>> {
        if 16 * (c as int) < self.table().len() {
            Some(self.table().subrange(16 * (c as int), 16 * (c as int) + 16))
        } else {
            None
        }
    }

    fn char_size(&self) -> (size: (usize, usize))
        ensures
            size == (10usize, 18usize),
    {
        (8 + 2, 16 + 2)
    }

    fn write_ascii<W: PixelWriter + ?Sized>(
        &self,
        writer: &mut W,
        x: usize,
        y: usize,
        c: char,
        fg: &PixelColor,
        bg: &PixelColor,
    ) {
        proof {
            use_type_invariant(self);
        }
        let index = glyph_offset(c);
        let len = self.font.len();
        if index >= len {
            proof {
                lemma_paint_nothing(
                    writer.frame(),
                    glyph_region(x as int, y as int, self.glyph(c)),
                    *fg,
                );
            }
            return ;
        }
        let ghost before = writer.frame();
        let ghost glyph = self.glyph(c)->0;
        let ghost (gx, gy) = (x as int, y as int);
        proof {
            lemma_paint_nothing(before, glyph_progress(gx, gy, glyph, 0, 0), *fg);
        }
        let mut dy: usize = 0;
        while dy < 16
            invariant
                dy <= 16,
                index + 16 <= len,
                len == self.font@.len(),
                (gx, gy) == (x as int, y as int),
                glyph == self.font@.subrange(index as int, index + 16),
                before.wf(),
                before.covers(glyph_region(gx, gy, Some(glyph))),
                before.painted(writer.frame(), glyph_progress(gx, gy, glyph, dy as int, 0), *fg),
            decreases 16 - dy,
        {
            let row = self.font[index + dy];
            let mut dx: usize = 0;
            while dx < 8
                invariant
                    dx <= 8,
                    dy < 16,
                    (gx, gy) == (x as int, y as int),
                    glyph.len() == 16,
                    row == glyph[dy as int],
                    before.wf(),
                    before.covers(glyph_region(gx, gy, Some(glyph))),
                    before.painted(
                        writer.frame(),
                        glyph_progress(gx, gy, glyph, dy as int, dx as int),
                        *fg,
                    ),
                decreases 8 - dx,
            {
                let ghost mid = writer.frame();
                if shows(row, dx) {
                    assert(glyph_region(gx, gy, Some(glyph)).contains((gx + dx, gy + dy)));
                    writer.draw_pixel(x + dx, y + dy, fg);
                    proof {
                        lemma_paint_step(
                            before,
                            mid,
                            glyph_progress(gx, gy, glyph, dy as int, dx as int),
                            gx + dx,
                            gy + dy,
                            *fg,
                            glyph_progress(gx, gy, glyph, dy as int, dx + 1),
                        );
                    }
                } else {
                    proof {
                        lemma_paint_same_region(
                            before,
                            mid,
                            glyph_progress(gx, gy, glyph, dy as int, dx as int),
                            glyph_progress(gx, gy, glyph, dy as int, dx + 1),
                            *fg,
                        );
                    }
                }
                dx += 1;
            }
            proof {
                lemma_paint_same_region(
                    before,
                    writer.frame(),
                    glyph_progress(gx, gy, glyph, dy as int, dx as int),
                    glyph_progress(gx, gy, glyph, dy + 1, 0),
                    *fg,
                );
            }
            dy += 1;
        }
        proof {
            lemma_paint_same_region(
                before,
                writer.frame(),
                glyph_progress(gx, gy, glyph, dy as int, 0),
                glyph_region(gx, gy, Some(glyph)),
                *fg,
            );
        }
    }
}

/// The pattern of a character is that of its 16 bytes in the table. Where the
/// table holds whole glyphs and reaches the character `c`, the glyph drawn at
/// `(x, y)` shows the pixel `(x + dx, y + dy)` exactly where `dx < 8`,
/// `dy < 16` and bit `7 - dx` of the byte at `16 * c + dy` is set. Where the
/// table ends before `16 * c`, it shows no pixel at all.
pub proof fn lemma_glyph_pattern(font: &ShinonomeFont, c: char, x: int, y: int)
    requires
        font.table().len() % 16 == 0,
    ensures
        16 * (c as int) < font.table().len() ==> forall|px: int, py: int|
            #![trigger glyph_region(x, y, font.glyph(c)).contains((px, py))]
            glyph_region(x, y, font.glyph(c)).contains((px, py)) <==> 0 <= px - x < 8 && 0 <= py
                - y < 16 && (font.table()[16 * (c as int) + (py - y)] >> ((7 - (px - x)) as u8))
                & 1u8 == 1u8,
        16 * (c as int) >= font.table().len() ==> forall|px: int, py: int|
            !#[trigger] glyph_region(x, y, font.glyph(c)).contains((px, py)),
{
}

/// What a character looks like depends on the table and on the arguments
/// alone: drawn with the same font at the same place in the same colour on
/// equal frames, it leaves equal frames.
pub proof fn lemma_glyph_deterministic(
    font: &ShinonomeFont,
    c: char,
    x: int,
    y: int,
    fg: PixelColor,
    before: Frame,
    one: Frame,
    other: Frame,
)
    requires
        before.painted(one, glyph_region(x, y, font.glyph(c)), fg),
        before.painted(other, glyph_region(x, y, font.glyph(c)), fg),
    ensures
        one == other,
{
    lemma_painted_unique(before, one, other, glyph_region(x, y, font.glyph(c)), fg);
}

} // verus!
