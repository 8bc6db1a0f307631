use pixel_display::{
    init_global_writer, DisplayWriter, Font, FrameBuffer, GlobalWriter, PixelColor, PixelFormat,
    PixelWriter, ShinonomeFont, Vector2D,
};

fn buffer(format: PixelFormat) -> FrameBuffer {
    FrameBuffer::new(vec![0x11; 4 * 8 * 4], 8, 6, 4, format).unwrap()
}

#[test]
fn global_writer_starts_empty() {
    let global = GlobalWriter::uninitialized();
    assert!(!global.initialized());
}

#[test]
fn init_picks_the_rgb_writer() {
    let mut global = GlobalWriter::uninitialized();
    init_global_writer(&mut global, buffer(PixelFormat::PixelRGBResv8BitPerColor));
    assert!(global.initialized());
    assert!(matches!(global.writer(), DisplayWriter::Rgb(_)));
    assert_eq!(global.writer().resolution(), (6, 4));
    global.writer_mut().draw_pixel(1, 0, &PixelColor::new(1, 2, 3));
    assert_eq!(&global.writer().bytes()[4..8], &[1, 2, 3, 0x11]);
    assert!(global.initialized());
}

#[test]
fn init_picks_the_bgr_writer() {
    let mut global = GlobalWriter::uninitialized();
    init_global_writer(&mut global, buffer(PixelFormat::PixelBGRResv8BitPerColor));
    assert!(global.initialized());
    assert!(matches!(global.writer(), DisplayWriter::Bgr(_)));
    global.writer_mut().draw_pixel(1, 0, &PixelColor::new(1, 2, 3));
    assert_eq!(&global.writer().bytes()[4..8], &[3, 2, 1, 0x11]);
}

#[test]
fn display_writer_follows_the_format() {
    let rgb = DisplayWriter::for_frame_buffer(buffer(PixelFormat::PixelRGBResv8BitPerColor));
    assert!(matches!(rgb, DisplayWriter::Rgb(_)));
    assert_eq!(rgb.horizontal_resolution(), 6);
    assert_eq!(rgb.vertical_resolution(), 4);
    let bgr = DisplayWriter::for_frame_buffer(buffer(PixelFormat::PixelBGRResv8BitPerColor));
    assert!(matches!(bgr, DisplayWriter::Bgr(_)));
}

#[test]
fn global_writer_draws_like_the_descriptor() {
    for format in [PixelFormat::PixelRGBResv8BitPerColor, PixelFormat::PixelBGRResv8BitPerColor] {
        let mut direct = buffer(format);
        let mut global = GlobalWriter::uninitialized();
        init_global_writer(&mut global, buffer(format));
        let color = PixelColor::new(5, 6, 7);
        direct.fill_rect(Vector2D::new(1, 1), Vector2D::new(4, 2), &color);
        direct.draw_rect(Vector2D::new(0, 0), Vector2D::new(5, 3), &PixelColor::white());
        let writer = global.writer_mut();
        writer.fill_rect(Vector2D::new(1, 1), Vector2D::new(4, 2), &color);
        writer.draw_rect(Vector2D::new(0, 0), Vector2D::new(5, 3), &PixelColor::white());
        assert_eq!(direct.bytes(), global.writer().bytes());
    }
}

#[test]
fn text_through_the_global_writer() {
    let mut table = vec![0u8; 4096];
    table[16 * 65] = 0x80;
    let font = ShinonomeFont::new(table.leak()).unwrap();
    let fb = FrameBuffer::new(vec![0; 4 * 16 * 16], 16, 16, 16, PixelFormat::PixelBGRResv8BitPerColor);
    let mut global = GlobalWriter::uninitialized();
    init_global_writer(&mut global, fb.unwrap());
    Font::write_string(&font, global.writer_mut(), 0, 0, "AA", &PixelColor::red(), &PixelColor::black());
    let bytes = global.writer().bytes();
    assert_eq!(&bytes[0..4], &[0, 0, 255, 0]);
    assert_eq!(&bytes[32..36], &[0, 0, 255, 0]);
    assert_eq!(bytes.iter().filter(|&&b| b != 0).count(), 2);
}
