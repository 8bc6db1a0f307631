use pixel_display::{
    Font, FrameBuffer, PixelColor, PixelFormat, PixelWriter, RGBResv8BitPerColorPixelWriter,
    ShinonomeFont, Vector2D,
};

const FILL: u8 = 0x55;

const GLYPH_A: [u8; 16] = [
    0x00, 0x18, 0x18, 0x18, 0x18, 0x24, 0x24, 0x24, 0x24, 0x7E, 0x42, 0x42, 0x42, 0xE7, 0x00, 0x00,
];

const GLYPH_B: [u8; 16] = [
    0xFF, 0x80, 0x01, 0x00, 0x00, 0x00, 0x00, 0x00, 0x00, 0x00, 0x00, 0x00, 0x00, 0x00, 0x00, 0x81,
];

fn table(len: usize) -> &'static [u8] {
    let mut bytes = vec![0u8; len];
    if len >= 16 * 66 {
        bytes[16 * 65..16 * 66].copy_from_slice(&GLYPH_A);
    }
    if len >= 16 * 67 {
        bytes[16 * 66..16 * 67].copy_from_slice(&GLYPH_B);
    }
    bytes.leak()
}

fn screen(stride: usize, width: usize, height: usize) -> FrameBuffer {
    FrameBuffer::new(
        vec![FILL; 4 * stride * height],
        stride,
        width,
        height,
        PixelFormat::PixelRGBResv8BitPerColor,
    )
    .unwrap()
}

fn pixel(bytes: &[u8], stride: usize, x: usize, y: usize) -> [u8; 4] {
    let at = 4 * (stride * y + x);
    [bytes[at], bytes[at + 1], bytes[at + 2], bytes[at + 3]]
}

#[test]
fn font_needs_whole_glyphs() {
    assert!(ShinonomeFont::new(table(4096)).is_some());
    assert!(ShinonomeFont::new(table(0)).is_some());
    assert!(ShinonomeFont::new(table(16)).is_some());
    assert!(ShinonomeFont::new(table(4095)).is_none());
    assert!(ShinonomeFont::new(table(17)).is_none());
}

#[test]
fn char_size_is_glyph_plus_margin() {
    let font = ShinonomeFont::new(table(4096)).unwrap();
    assert_eq!(font.char_size(), (10, 18));
}

#[test]
fn write_ascii_renders_the_rows_of_the_glyph() {
    let font = ShinonomeFont::new(table(4096)).unwrap();
    let stride = 24usize;
    let mut fb = screen(stride, 20, 20);
    let fg = PixelColor::new(1, 2, 3);
    font.write_ascii(&mut fb, 3, 2, 'A', &fg, &PixelColor::white());
    for y in 0..20usize {
        for x in 0..stride {
            let lit = (3..11).contains(&x)
                && (2..18).contains(&y)
                && (GLYPH_A[y - 2] >> (7 - (x - 3))) & 1 == 1;
            let expected = if lit { [1, 2, 3, FILL] } else { [FILL; 4] };
            assert_eq!(pixel(fb.bytes(), stride, x, y), expected, "pixel ({}, {})", x, y);
        }
    }
    assert_eq!(pixel(fb.bytes(), stride, 3 + 3, 2 + 1), [1, 2, 3, FILL]);
    assert_eq!(pixel(fb.bytes(), stride, 3, 2 + 13), [1, 2, 3, FILL]);
    assert_eq!(pixel(fb.bytes(), stride, 3, 2), [FILL; 4]);
}

#[test]
fn write_ascii_leftmost_pixel_is_the_high_bit() {
    let font = ShinonomeFont::new(table(4096)).unwrap();
    let stride = 8usize;
    let mut fb = screen(stride, 8, 16);
    font.write_ascii(&mut fb, 0, 0, 'B', &PixelColor::red(), &PixelColor::black());
    let red = [255, 0, 0, FILL];
    for x in 0..8 {
        assert_eq!(pixel(fb.bytes(), stride, x, 0), red);
    }
    assert_eq!(pixel(fb.bytes(), stride, 0, 1), red);
    assert_eq!(pixel(fb.bytes(), stride, 7, 1), [FILL; 4]);
    assert_eq!(pixel(fb.bytes(), stride, 0, 2), [FILL; 4]);
    assert_eq!(pixel(fb.bytes(), stride, 7, 2), red);
    assert_eq!(pixel(fb.bytes(), stride, 0, 15), red);
    assert_eq!(pixel(fb.bytes(), stride, 7, 15), red);
    assert_eq!(pixel(fb.bytes(), stride, 3, 15), [FILL; 4]);
}

#[test]
fn write_ascii_never_draws_the_background() {
    let font = ShinonomeFont::new(table(4096)).unwrap();
    let mut one = screen(16, 16, 16);
    let mut other = screen(16, 16, 16);
    font.write_ascii(&mut one, 4, 0, 'A', &PixelColor::red(), &PixelColor::black());
    font.write_ascii(&mut other, 4, 0, 'A', &PixelColor::red(), &PixelColor::green());
    assert_eq!(one.bytes(), other.bytes());
    let touched = one.bytes().iter().filter(|&&b| b != FILL).count();
    let lit: u32 = GLYPH_A.iter().map(|row| row.count_ones()).sum();
    assert_eq!(touched, 3 * lit as usize);
}

#[test]
fn write_ascii_skips_characters_outside_the_table() {
    let font = ShinonomeFont::new(table(4096)).unwrap();
    let mut fb = screen(8, 8, 16);
    font.write_ascii(&mut fb, 0, 0, '\u{100}', &PixelColor::red(), &PixelColor::black());
    font.write_ascii(&mut fb, 0, 0, '\u{3042}', &PixelColor::red(), &PixelColor::black());
    font.write_ascii(&mut fb, 0, 0, '\u{10FFFF}', &PixelColor::red(), &PixelColor::black());
    font.write_ascii(&mut fb, 1000, 1000, '\u{100}', &PixelColor::red(), &PixelColor::black());
    assert_eq!(fb.bytes(), &vec![FILL; 4 * 8 * 16]);
}

#[test]
fn write_ascii_table_ends_where_its_bytes_end() {
    let short = ShinonomeFont::new(table(16 * 65)).unwrap();
    let mut fb = screen(8, 8, 16);
    short.write_ascii(&mut fb, 0, 0, 'A', &PixelColor::red(), &PixelColor::black());
    assert_eq!(fb.bytes(), &vec![FILL; 4 * 8 * 16]);
    let longer = ShinonomeFont::new(table(16 * 66)).unwrap();
    longer.write_ascii(&mut fb, 0, 0, 'A', &PixelColor::red(), &PixelColor::black());
    assert_eq!(pixel(fb.bytes(), 8, 3, 1), [255, 0, 0, FILL]);
}

#[test]
fn write_ascii_blank_glyph_draws_nothing() {
    let font = ShinonomeFont::new(table(4096)).unwrap();
    let mut fb = screen(8, 8, 16);
    font.write_ascii(&mut fb, 0, 0, ' ', &PixelColor::red(), &PixelColor::black());
    assert_eq!(fb.bytes(), &vec![FILL; 4 * 8 * 16]);
}

#[test]
fn write_string_advances_eight_pixels() {
    let font = ShinonomeFont::new(table(4096)).unwrap();
    let stride = 40usize;
    let fg = PixelColor::new(9, 8, 7);
    let mut fb = screen(stride, 40, 20);
    font.write_string(&mut fb, 5, 1, "AB\u{3042}A", &fg, &PixelColor::black());
    let glyphs: [Option<&[u8; 16]>; 4] = [Some(&GLYPH_A), Some(&GLYPH_B), None, Some(&GLYPH_A)];
    for y in 0..20usize {
        for x in 0..stride {
            let mut lit = false;
            if x >= 5 && x < 5 + 32 && y >= 1 && y < 17 {
                if let Some(rows) = glyphs[(x - 5) / 8] {
                    lit = (rows[y - 1] >> (7 - (x - 5) % 8)) & 1 == 1;
                }
            }
            let expected = if lit { [9, 8, 7, FILL] } else { [FILL; 4] };
            assert_eq!(pixel(fb.bytes(), stride, x, y), expected, "pixel ({}, {})", x, y);
        }
    }
}

#[test]
fn write_string_through_the_trait_matches_single_glyphs() {
    let font = ShinonomeFont::new(table(4096)).unwrap();
    let fg = PixelColor::green();
    let bg = PixelColor::black();
    let mut whole = screen(32, 32, 16);
    Font::write_string(&font, &mut whole, 2, 0, "BAB", &fg, &bg);
    let mut single = screen(32, 32, 16);
    font.write_ascii(&mut single, 2, 0, 'B', &fg, &bg);
    font.write_ascii(&mut single, 10, 0, 'A', &fg, &bg);
    font.write_ascii(&mut single, 18, 0, 'B', &fg, &bg);
    assert_eq!(whole.bytes(), single.bytes());
    let mut inherent = screen(32, 32, 16);
    font.write_string(&mut inherent, 2, 0, "BAB", &fg, &bg);
    assert_eq!(whole.bytes(), inherent.bytes());
}

#[test]
fn write_string_of_nothing_draws_nothing() {
    let font = ShinonomeFont::new(table(4096)).unwrap();
    let mut fb = screen(8, 8, 16);
    font.write_string(&mut fb, usize::MAX, 3, "", &PixelColor::red(), &PixelColor::black());
    assert_eq!(fb.bytes(), &vec![FILL; 4 * 8 * 16]);
}

#[test]
fn writers_serve_as_trait_objects() {
    let font = ShinonomeFont::new(table(4096)).unwrap();
    let fg = PixelColor::new(4, 5, 6);
    let mut direct = screen(16, 16, 16);
    font.write_ascii(&mut direct, 1, 0, 'A', &fg, &PixelColor::black());
    direct.fill_rect(Vector2D::new(10, 10), Vector2D::new(2, 2), &fg);

    let mut behind = RGBResv8BitPerColorPixelWriter::new(screen(16, 16, 16));
    {
        let writer: &mut dyn PixelWriter = &mut behind;
        font.write_ascii(writer, 1, 0, 'A', &fg, &PixelColor::black());
        writer.fill_rect(Vector2D::new(10, 10), Vector2D::new(2, 2), &fg);
        assert_eq!(writer.resolution(), (16, 16));
    }
    assert_eq!(direct.bytes(), behind.bytes());
}
