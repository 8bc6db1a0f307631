//! The display of the whole system: one writer, chosen once by pixel format.

use vstd::prelude::*;
use crate::buffer::FrameBuffer;
use crate::color::{PixelColor, PixelFormat};
use crate::frame::Frame;
use crate::writer::{BGRResv8BitPerColorPixelWriter, PixelWriter, RGBResv8BitPerColorPixelWriter};

verus! {

/// One of the two writers, told apart by a tag instead of a table of methods.
pub enum DisplayWriter {
    Rgb(RGBResv8BitPerColorPixelWriter),
    Bgr(BGRResv8BitPerColorPixelWriter),
}

impl DisplayWriter {
    /// The writer whose byte order is the pixel format of `frame_buffer`.
    pub fn for_frame_buffer(frame_buffer: FrameBuffer) -> (writer: Self)
        ensures
            writer.frame() == frame_buffer@,
            writer is Rgb <==> frame_buffer@.format == PixelFormat::PixelRGBResv8BitPerColor,
    {
        match frame_buffer.pixel_format() {
            PixelFormat::PixelRGBResv8BitPerColor => DisplayWriter::Rgb(
                RGBResv8BitPerColorPixelWriter::new(frame_buffer),
            ),
            PixelFormat::PixelBGRResv8BitPerColor => DisplayWriter::Bgr(
                BGRResv8BitPerColorPixelWriter::new(frame_buffer),
            ),
        }
    }
}

impl DisplayWriter {
    /// The memory that this writer draws on.
    pub fn bytes(&self) -> (bytes: &Vec<u8>)
        ensures
            bytes@ == self.frame().bytes,
    {
        match self {
            DisplayWriter::Rgb(writer) => writer.bytes(),
            DisplayWriter::Bgr(writer) => writer.bytes(),
        }
    }
}

impl DisplayWriter {
    /// The variant of a writer tells the format of its frame.
    pub proof fn lemma_format(&self)
        ensures
            self is Rgb ==> self.frame().format == PixelFormat::PixelRGBResv8BitPerColor,
            self is Bgr ==> self.frame().format == PixelFormat::PixelBGRResv8BitPerColor,
    {
        match self {
            DisplayWriter::Rgb(writer) => writer.lemma_format(),
            DisplayWriter::Bgr(writer) => writer.lemma_format(),
        }
    }
}

impl PixelWriter for DisplayWriter {
    open spec fn frame(&self) -> Frame {
        match self {
            DisplayWriter::Rgb(writer) => writer.frame(),
            DisplayWriter::Bgr(writer) => writer.frame(),
        }
    }

    fn horizontal_resolution(&self) -> (width: usize) {
        match self {
            DisplayWriter::Rgb(writer) => writer.horizontal_resolution(),
            DisplayWriter::Bgr(writer) => writer.horizontal_resolution(),
        }
    }

    fn vertical_resolution(&self) -> (height: usize) {
        match self {
            DisplayWriter::Rgb(writer) => writer.vertical_resolution(),
            DisplayWriter::Bgr(writer) => writer.vertical_resolution(),
        }
    }

    fn draw_pixel(&mut self, x: usize, y: usize, color: &PixelColor) {
        match self {
            DisplayWriter::Rgb(writer) => writer.draw_pixel(x, y, color),
            DisplayWriter::Bgr(writer) => writer.draw_pixel(x, y, color),
        }
    }
}

/// The place of the system's writer: empty at first, then holding the writer
/// that `init_global_writer` chose, for good.
pub struct GlobalWriter {
    writer: Option<DisplayWriter>,
}

impl GlobalWriter {
    /// Whether a writer was installed.
    pub closed spec fn is_initialized(&self) -> bool {
        self.writer is Some
    }

    /// The installed writer.
    pub closed spec fn active(&self) -> DisplayWriter
        recommends
            self.is_initialized(),
    {
        self.writer->0
    }

    /// The empty place.
    pub fn uninitialized() -> (global: Self)
        ensures
            !global.is_initialized(),
    {
        Self { writer: None }
    }

    pub fn initialized(&self) -> (installed: bool)
        ensures
            installed == self.is_initialized(),
    {
        self.writer.is_some()
    }

    /// The installed writer, to read from.
    pub fn writer(&self) -> (writer: &DisplayWriter)
        requires
            self.is_initialized(),
        ensures
            *writer == self.active(),
    {
        self.writer.as_ref().unwrap()
    }

    /// The installed writer, to draw with. The place stays initialized, and
    /// holds whatever the writer has become when the borrow ends.
    pub fn writer_mut(&mut self) -> (writer: &mut DisplayWriter)
        requires
            old(self).is_initialized(),
        ensures
            *writer == old(self).active(),
            final(self).is_initialized(),
            final(self).active() == *final(writer),
    {
        self.writer.as_mut().unwrap()
    }
}

/// Installs the writer for the pixel format of `frame_buffer`. This is the
/// one transition of the place, from empty to initialized.
pub fn init_global_writer(global: &mut GlobalWriter, frame_buffer: FrameBuffer)
    requires
        !old(global).is_initialized(),
        frame_buffer@.wf(),
    ensures
        final(global).is_initialized(),
        final(global).active().frame() == frame_buffer@,
        final(global).active() is Rgb <==> frame_buffer@.format
            == PixelFormat::PixelRGBResv8BitPerColor,
{
    global.writer = Some(DisplayWriter::for_frame_buffer(frame_buffer));
}

/// A place that holds a writer keeps it through every drawing: whatever
/// region the writer paints in whatever colour, the writer still draws on a
/// frame of the resolution, the scan lines and the format that it was
/// installed with, and that frame is well formed if it was before.
pub proof fn lemma_drawing_keeps_display(
    before: GlobalWriter,
    after: GlobalWriter,
    region: Set<(int, int)>,
    color: PixelColor,
)
    requires
        before.is_initialized(),
        after.is_initialized(),
        before.active().frame().painted(after.active().frame(), region, color),
    ensures
        after.active().frame().width == before.active().frame().width,
        after.active().frame().height == before.active().frame().height,
        after.active().frame().stride == before.active().frame().stride,
        after.active().frame().format == before.active().frame().format,
        after.active().frame().wf() == before.active().frame().wf(),
{
}

} // verus!
