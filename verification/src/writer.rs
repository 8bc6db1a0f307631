//! The drawing interface, and the writers that implement it.

use vstd::prelude::*;
use crate::buffer::FrameBuffer;
use crate::color::{PixelColor, PixelFormat};
use crate::frame::{
    lemma_paint_nothing, lemma_paint_same_region, lemma_paint_step, outline_region, rect_region,
    Frame,
};
use crate::geometry::Vector2D;

verus! {

/// What `fill_rect` has drawn when `rows` full rows and the first `cols`
/// pixels of the next row are done.
spec fn fill_progress(x: int, y: int, w: int, rows: int, cols: int) -> Set<(int, int)> {
    Set::new(
        |p: (int, int)|
            x <= p.0 < x + w && (y <= p.1 < y + rows || (p.1 == y + rows && p.0 < x + cols)),
    )
}

/// What `draw_rect` has drawn when the first `cols` pixels of both rows and
/// the first `rows` pixels of both columns are done, the far corner not yet.
spec fn outline_progress(x: int, y: int, w: int, h: int, cols: int, rows: int) -> Set<(int, int)> {
    Set::new(
        |p: (int, int)|
            (x <= p.0 < x + cols && (p.1 == y || p.1 == y + h)) || (y <= p.1 < y + rows && (p.0
                == x || p.0 == x + w)),
    )
}

/// Something that pixels can be drawn on.
pub trait PixelWriter {
    /// The frame that this writer draws on.
    spec fn frame(&self) -> Frame;

    /// Draws the visible pixel `(x, y)`: stores the three channel bytes of
    /// `color`, in the order of the frame's format, at `4 * (stride * y + x)`.
    fn draw_pixel(&mut self, x: usize, y: usize, color: &PixelColor)
        requires
            old(self).frame().wf(),
            old(self).frame().contains(x as int, y as int),
        ensures
            final(self).frame() == old(self).frame().put(x as int, y as int, *color),
    ;

    fn horizontal_resolution(&self) -> (width: usize)
        ensures
            width == self.frame().width,
    ;

    fn vertical_resolution(&self) -> (height: usize)
        ensures
            height == self.frame().height,
    ;

    fn resolution(&self) -> (size: (usize, usize))
        ensures
            size.0 == self.frame().width,
            size.1 == self.frame().height,
    {
        (self.horizontal_resolution(), self.vertical_resolution())
    }

    /// Draws every pixel `(pos.x + dx, pos.y + dy)` with `dx < size.x` and
    /// `dy < size.y`, and no other.
    fn fill_rect(&mut self, pos: Vector2D<usize>, size: Vector2D<usize>, color: &PixelColor)
        requires
            old(self).frame().wf(),
            old(self).frame().covers(
                rect_region(pos.x as int, pos.y as int, size.x as int, size.y as int),
            ),
        ensures
            old(self).frame().painted(
                final(self).frame(),
                rect_region(pos.x as int, pos.y as int, size.x as int, size.y as int),
                *color,
            ),
    {
        let ghost before = self.frame();
        let ghost (x, y, w, h) = (pos.x as int, pos.y as int, size.x as int, size.y as int);
        proof {
            lemma_paint_nothing(before, fill_progress(x, y, w, 0, 0), *color);
        }
        let mut dy: usize = 0;
        while dy < size.y()
            invariant
                dy <= size.y,
                before.wf(),
                before.covers(rect_region(x, y, w, h)),
                (x, y, w, h) == (pos.x as int, pos.y as int, size.x as int, size.y as int),
                before.painted(self.frame(), fill_progress(x, y, w, dy as int, 0), *color),
            decreases size.y - dy,
        {
            let mut dx: usize = 0;
            while dx < size.x()
                invariant
                    dx <= size.x,
                    dy < size.y,
                    before.wf(),
                    before.covers(rect_region(x, y, w, h)),
                    (x, y, w, h) == (pos.x as int, pos.y as int, size.x as int, size.y as int),
                    before.painted(
                        self.frame(),
                        fill_progress(x, y, w, dy as int, dx as int),
                        *color,
                    ),
                decreases size.x - dx,
            {
                assert(rect_region(x, y, w, h).contains((x + dx, y + dy)));
                let ghost mid = self.frame();
                self.draw_pixel(pos.x() + dx, pos.y() + dy, color);
                proof {
                    lemma_paint_step(
                        before,
                        mid,
                        fill_progress(x, y, w, dy as int, dx as int),
                        x + dx,
                        y + dy,
                        *color,
                        fill_progress(x, y, w, dy as int, dx + 1),
                    );
                }
                dx += 1;
            }
            proof {
                lemma_paint_same_region(
                    before,
                    self.frame(),
                    fill_progress(x, y, w, dy as int, dx as int),
                    fill_progress(x, y, w, dy + 1, 0),
                    *color,
                );
            }
            dy += 1;
        }
        proof {
            lemma_paint_same_region(
                before,
                self.frame(),
                fill_progress(x, y, w, dy as int, 0),
                rect_region(x, y, w, h),
                *color,
            );
        }
    }

    /// Draws the border of the rectangle from `pos` to `pos + size`, both
    /// corners included: the rows `pos.y` and `pos.y + size.y` and the columns
    /// `pos.x` and `pos.x + size.x`. The border is `size.x + 1` pixels wide
    /// and `size.y + 1` pixels tall.
    fn draw_rect(&mut self, pos: Vector2D<usize>, size: Vector2D<usize>, color: &PixelColor)
        requires
            old(self).frame().wf(),
            old(self).frame().covers(
                outline_region(pos.x as int, pos.y as int, size.x as int, size.y as int),
            ),
        ensures
            old(self).frame().painted(
                final(self).frame(),
                outline_region(pos.x as int, pos.y as int, size.x as int, size.y as int),
                *color,
            ),
    {
        let ghost before = self.frame();
        let ghost (x, y, w, h) = (pos.x as int, pos.y as int, size.x as int, size.y as int);
        proof {
            lemma_paint_nothing(before, outline_progress(x, y, w, h, 0, 0), *color);
        }
        let mut dx: usize = 0;
        while dx < size.x()
            invariant
                dx <= size.x,
                before.wf(),
                before.covers(outline_region(x, y, w, h)),
                (x, y, w, h) == (pos.x as int, pos.y as int, size.x as int, size.y as int),
                before.painted(self.frame(), outline_progress(x, y, w, h, dx as int, 0), *color),
            decreases size.x - dx,
        {
            assert(outline_region(x, y, w, h).contains((x + dx, y)));
            assert(outline_region(x, y, w, h).contains((x + dx, y + h)));
            let ghost first = self.frame();
            let ghost half = Set::new(
                |p: (int, int)|
                    outline_progress(x, y, w, h, dx as int, 0).contains(p) || p == (x + dx, y),
            );
            self.draw_pixel(pos.x() + dx, pos.y(), color);
            proof {
                lemma_paint_step(
                    before,
                    first,
                    outline_progress(x, y, w, h, dx as int, 0),
                    x + dx,
                    y,
                    *color,
                    half,
                );
            }
            let ghost second = self.frame();
            self.draw_pixel(pos.x() + dx, pos.y() + size.y(), color);
            proof {
                lemma_paint_step(
                    before,
                    second,
                    half,
                    x + dx,
                    y + h,
                    *color,
                    outline_progress(x, y, w, h, dx + 1, 0),
                );
            }
            dx += 1;
        }
        let mut dy: usize = 0;
        while dy < size.y()
            invariant
                dy <= size.y,
                before.wf(),
                before.covers(outline_region(x, y, w, h)),
                (x, y, w, h) == (pos.x as int, pos.y as int, size.x as int, size.y as int),
                before.painted(self.frame(), outline_progress(x, y, w, h, w, dy as int), *color),
            decreases size.y - dy,
        {
            assert(outline_region(x, y, w, h).contains((x, y + dy)));
            assert(outline_region(x, y, w, h).contains((x + w, y + dy)));
            let ghost first = self.frame();
            let ghost half = Set::new(
                |p: (int, int)|
                    outline_progress(x, y, w, h, w, dy as int).contains(p) || p == (x, y + dy),
            );
            self.draw_pixel(pos.x(), pos.y() + dy, color);
            proof {
                lemma_paint_step(
                    before,
                    first,
                    outline_progress(x, y, w, h, w, dy as int),
                    x as int,
                    y + dy,
                    *color,
                    half,
                );
            }
            let ghost second = self.frame();
            self.draw_pixel(pos.x() + size.x(), pos.y() + dy, color);
            proof {
                lemma_paint_step(
                    before,
                    second,
                    half,
                    x + w,
                    y + dy,
                    *color,
                    outline_progress(x, y, w, h, w, dy + 1),
                );
            }
            dy += 1;
        }
        assert(outline_region(x, y, w, h).contains((x + w, y + h)));
        let ghost sides = self.frame();
        self.draw_pixel(pos.x() + size.x(), pos.y() + size.y(), color);
        proof {
            lemma_paint_step(
                before,
                sides,
                outline_progress(x, y, w, h, w, h),
                x + w,
                y + h,
                *color,
                outline_region(x, y, w, h),
            );
        }
    }
}

impl PixelWriter for FrameBuffer {
    open spec fn frame(&self) -> Frame {
        self@
    }

    fn horizontal_resolution(&self) -> (width: usize) {
        self.h()
    }

    fn vertical_resolution(&self) -> (height: usize) {
        self.v()
    }

    /// Picks the byte order by the format tag of the descriptor.
    fn draw_pixel(&mut self, x: usize, y: usize, color: &PixelColor) {
        let color_data = match self.pixel_format() {
            PixelFormat::PixelRGBResv8BitPerColor => [color.red, color.green, color.blue],
            PixelFormat::PixelBGRResv8BitPerColor => [color.blue, color.green, color.red],
        };
        assert(color_data@ =~= self@.format.channels(*color));
        self.store(x, y, color_data);
    }
}

/// A writer that stores red first, whatever the tag of its descriptor says.
pub struct RGBResv8BitPerColorPixelWriter {
    frame_buffer: FrameBuffer,
}

impl RGBResv8BitPerColorPixelWriter {
    pub fn new(frame_buffer: FrameBuffer) -> (writer: Self)
        ensures
            writer.frame() == frame_buffer@.with_format(PixelFormat::PixelRGBResv8BitPerColor),
    {
        Self { frame_buffer }
    }

    /// The memory that this writer draws on.
    pub fn bytes(&self) -> (bytes: &Vec<u8>)
        ensures
            bytes@ == self.frame().bytes,
    {
        self.frame_buffer.bytes()
    }

    /// The frame of every such writer has the format that stores red first.
    pub proof fn lemma_format(&self)
        ensures
            self.frame().format == PixelFormat::PixelRGBResv8BitPerColor,
    {
    }
}

impl PixelWriter for RGBResv8BitPerColorPixelWriter {
    closed spec fn frame(&self) -> Frame {
        self.frame_buffer@.with_format(PixelFormat::PixelRGBResv8BitPerColor)
    }

    fn horizontal_resolution(&self) -> (width: usize) {
        self.frame_buffer.h()
    }

    fn vertical_resolution(&self) -> (height: usize) {
        self.frame_buffer.v()
    }

    fn draw_pixel(&mut self, x: usize, y: usize, color: &PixelColor) {
        let color_data = [color.red, color.green, color.blue];
        assert(color_data@ =~= PixelFormat::PixelRGBResv8BitPerColor.channels(*color));
        self.frame_buffer.store(x, y, color_data);
    }
}

/// A writer that stores blue first, whatever the tag of its descriptor says.
pub struct BGRResv8BitPerColorPixelWriter {
    frame_buffer: FrameBuffer,
}

impl BGRResv8BitPerColorPixelWriter {
    pub fn new(frame_buffer: FrameBuffer) -> (writer: Self)
        ensures
            writer.frame() == frame_buffer@.with_format(PixelFormat::PixelBGRResv8BitPerColor),
    {
        Self { frame_buffer }
    }

    /// The memory that this writer draws on.
    pub fn bytes(&self) -> (bytes: &Vec<u8>)
        ensures
            bytes@ == self.frame().bytes,
    {
        self.frame_buffer.bytes()
    }

    /// The frame of every such writer has the format that stores blue first.
    pub proof fn lemma_format(&self)
        ensures
            self.frame().format == PixelFormat::PixelBGRResv8BitPerColor,
    {
    }
}

impl PixelWriter for BGRResv8BitPerColorPixelWriter {
    closed spec fn frame(&self) -> Frame {
        self.frame_buffer@.with_format(PixelFormat::PixelBGRResv8BitPerColor)
    }

    fn horizontal_resolution(&self) -> (width: usize) {
        self.frame_buffer.h()
    }

    fn vertical_resolution(&self) -> (height: usize) {
        self.frame_buffer.v()
    }

    fn draw_pixel(&mut self, x: usize, y: usize, color: &PixelColor) {
        let color_data = [color.blue, color.green, color.red];
        assert(color_data@ =~= PixelFormat::PixelBGRResv8BitPerColor.channels(*color));
        self.frame_buffer.store(x, y, color_data);
    }
}

} // verus!
