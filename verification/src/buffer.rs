//! The descriptor of a frame buffer: its memory, its geometry and its format.

use vstd::prelude::*;
use crate::color::PixelFormat;
use crate::frame::{byte_index, lemma_byte_index_bounds, Frame};

verus! {

/// A frame buffer of four bytes per pixel. Its view is the [`Frame`] it holds.
///
/// The memory is held as a vector of bytes. Bringing those bytes onto a
/// screen is the business of whoever owns the hardware.
#[derive(Debug)]
pub struct FrameBuffer {
    frame_buffer: Vec<u8>,
    pixel_per_scan_line: usize,
    horizontal_resolution: usize,
    vertical_resolution: usize,
    pixel_format: PixelFormat,
}

impl View for FrameBuffer {
    type V = Frame;

    closed spec fn view(&self) -> Frame {
        Frame {
            bytes: self.frame_buffer@,
            stride: self.pixel_per_scan_line as nat,
            width: self.horizontal_resolution as nat,
            height: self.vertical_resolution as nat,
            format: self.pixel_format,
        }
    }
}

impl FrameBuffer {
    /// A descriptor over `frame_buffer`, if the scan lines are at least as
    /// long as the visible width and the memory holds
    /// `4 * pixel_per_scan_line * vertical_resolution` bytes; `None` otherwise.
    pub fn new(
        frame_buffer: Vec<u8>,
        pixel_per_scan_line: usize,
        horizontal_resolution: usize,
        vertical_resolution: usize,
        pixel_format: PixelFormat,
    ) -> (made: Option<Self>)
        ensures
            ({
                let frame = Frame {
                    bytes: frame_buffer@,
                    stride: pixel_per_scan_line as nat,
                    width: horizontal_resolution as nat,
                    height: vertical_resolution as nat,
                    format: pixel_format,
                };
                match made {
                    Some(fb) => frame.wf() && fb@ == frame,
                    None => !frame.wf(),
                }
            }),
    {
        let len = frame_buffer.len();
        if horizontal_resolution > pixel_per_scan_line {
            return None;
        }
        assert(4 * pixel_per_scan_line * vertical_resolution == (pixel_per_scan_line
            * vertical_resolution) * 4) by (nonlinear_arith);
        let pixels = match pixel_per_scan_line.checked_mul(vertical_resolution) {
            Some(n) => n,
            None => {
                return None;
            },
        };
        let needed = match pixels.checked_mul(4) {
            Some(n) => n,
            None => {
                return None;
            },
        };
        if needed > len {
            return None;
        }
        Some(
            Self {
                frame_buffer,
                pixel_per_scan_line,
                horizontal_resolution,
                vertical_resolution,
                pixel_format,
            },
        )
    }

    /// The descriptor that stands in before the hardware's data is supplied:
    /// no memory and no pixels, so nothing can be drawn through it.
    pub fn uninitialized_default() -> (fb: Self)
        ensures
            fb@.wf(),
            fb@ == (Frame {
                bytes: Seq::empty(),
                stride: 0,
                width: 0,
                height: 0,
                format: PixelFormat::PixelRGBResv8BitPerColor,
            }),
    {
        Self {
            frame_buffer: Vec::new(),
            pixel_per_scan_line: 0,
            horizontal_resolution: 0,
            vertical_resolution: 0,
            pixel_format: PixelFormat::PixelRGBResv8BitPerColor,
        }
    }

    pub fn h(&self) -> (width: usize)
        ensures
            width == self@.width,
    {
        self.horizontal_resolution
    }

    pub fn v(&self) -> (height: usize)
        ensures
            height == self@.height,
    {
        self.vertical_resolution
    }

    pub fn pixel_format(&self) -> (format: &PixelFormat)
        ensures
            *format == self@.format,
    {
        &self.pixel_format
    }

    pub fn pixel_per_scan_line(&self) -> (stride: usize)
        ensures
            stride == self@.stride,
    {
        self.pixel_per_scan_line
    }

    /// The memory of the frame buffer.
    pub fn bytes(&self) -> (bytes: &Vec<u8>)
        ensures
            bytes@ == self@.bytes,
    {
        &self.frame_buffer
    }

    /// Stores the three bytes of `channels` at the start of pixel `(x, y)`,
    /// in increasing address order, and leaves the pixel's fourth byte alone.
    pub fn store(&mut self, x: usize, y: usize, channels: [u8; 3])
        requires
            old(self)@.wf(),
            old(self)@.contains(x as int, y as int),
        ensures
            final(self)@ == old(self)@.store(x as int, y as int, channels@),
    {
        let len = self.frame_buffer.len();
        proof {
            let stride = self.pixel_per_scan_line as nat;
            let height = self.vertical_resolution as nat;
            lemma_byte_index_bounds(stride, height, x as int, y as int, 0);
            lemma_byte_index_bounds(stride, height, x as int, y as int, 3);
            assert(0 <= stride * y) by (nonlinear_arith);
            assert(byte_index(stride, x as int, y as int, 3) < len);
        }
        let pixel_position = self.pixel_per_scan_line * y + x;
        let pixel = 4 * pixel_position;
        self.frame_buffer.set(pixel, channels[0]);
        self.frame_buffer.set(pixel + 1, channels[1]);
        self.frame_buffer.set(pixel + 2, channels[2]);
    }
}

} // verus!
