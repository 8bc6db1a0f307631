//! The mathematical model of a frame buffer: its bytes and its geometry.

use vstd::prelude::*;
use vstd::arithmetic::div_mod::{lemma_div_pos_is_pos, lemma_fundamental_div_mod, lemma_mod_pos_bound};
use crate::color::{PixelColor, PixelFormat};

verus! {

/// What a frame buffer holds: the bytes of its memory and how pixels are laid
/// out in them. Pixel `(x, y)` takes the four bytes from `4 * (stride * y + x)`.
pub struct Frame {
    pub bytes: Seq<u8>,
    pub stride: nat,
    pub width: nat,
    pub height: nat,
    pub format: PixelFormat,
}

/// The index of byte `k` of pixel `(x, y)` in a buffer of `stride` pixels per
/// scan line.
pub open spec fn byte_index(stride: nat, x: int, y: int, k: int) -> int {
    4 * (stride * y + x) + k
}

/// Every byte of a pixel inside the scan lines lies inside `4 * stride * height`.
pub proof fn lemma_byte_index_bounds(stride: nat, height: nat, x: int, y: int, k: int)
    requires
        0 <= x < stride,
        0 <= y < height,
        0 <= k < 4,
    ensures
        0 <= byte_index(stride, x, y, k) < 4 * stride * height,
        0 <= stride * y + x < stride * height,
{
    assert(0 <= stride * y + x < stride * height) by (nonlinear_arith)
        requires
            0 <= x < stride,
            0 <= y < height,
    ;
    assert(4 * (stride * height) == 4 * stride * height) by (nonlinear_arith);
}

/// Two bytes of pixels inside the scan lines share an index only if they are
/// the same byte of the same pixel.
pub proof fn lemma_byte_index_injective(
    stride: nat,
    x1: int,
    y1: int,
    k1: int,
    x2: int,
    y2: int,
    k2: int,
)
    requires
        0 <= x1 < stride,
        0 <= x2 < stride,
        0 <= y1,
        0 <= y2,
        0 <= k1 < 4,
        0 <= k2 < 4,
        byte_index(stride, x1, y1, k1) == byte_index(stride, x2, y2, k2),
    ensures
        x1 == x2,
        y1 == y2,
        k1 == k2,
{
    let p1 = stride * y1 + x1;
    let p2 = stride * y2 + x2;
    assert(p1 == p2 && k1 == k2);
    assert(y1 == y2) by (nonlinear_arith)
        requires
            0 <= x1 < stride,
            0 <= x2 < stride,
            0 <= y1,
            0 <= y2,
            stride * y1 + x1 == stride * y2 + x2,
    ;
    assert(x1 == x2);
}

/// The pixels `(px, py)` with `x <= px < x + w` and `y <= py < y + h`.
pub open spec fn rect_region(x: int, y: int, w: int, h: int) -> Set<(int, int)> {
    Set::new(|p: (int, int)| x <= p.0 < x + w && y <= p.1 < y + h)
}

/// The border of the rectangle with the corners `(x, y)` and `(x + w, y + h)`,
/// both corners included: the rows `y` and `y + h` and the columns `x` and
/// `x + w`, each from one corner to the other. It is `w + 1` pixels wide and
/// `h + 1` pixels tall; with `w` and `h` zero it is the one pixel `(x, y)`.
pub open spec fn outline_region(x: int, y: int, w: int, h: int) -> Set<(int, int)> {
    Set::new(
        |p: (int, int)|
            x <= p.0 <= x + w && y <= p.1 <= y + h && (p.0 == x || p.0 == x + w || p.1 == y
                || p.1 == y + h),
    )
}

impl Frame {
    /// The scan lines are at least as long as the visible width, the memory
    /// holds all of them, and the resolution fits a machine word.
    pub open spec fn wf(self) -> bool {
        &&& self.width <= self.stride
        &&& 4 * self.stride * self.height <= self.bytes.len()
        &&& self.width <= usize::MAX
        &&& self.height <= usize::MAX
    }

    /// Whether `(x, y)` is a visible pixel.
    pub open spec fn contains(self, x: int, y: int) -> bool {
        0 <= x < self.width && 0 <= y < self.height
    }

    /// Whether every pixel of `region` is visible.
    pub open spec fn covers(self, region: Set<(int, int)>) -> bool {
        forall|x: int, y: int| #[trigger] region.contains((x, y)) ==> self.contains(x, y)
    }

    pub open spec fn with_format(self, format: PixelFormat) -> Frame {
        Frame { format, ..self }
    }

    pub open spec fn same_layout(self, other: Frame) -> bool {
        &&& self.stride == other.stride
        &&& self.width == other.width
        &&& self.height == other.height
        &&& self.format == other.format
        &&& self.bytes.len() == other.bytes.len()
    }

    /// The frame after three bytes were stored at the start of pixel `(x, y)`.
    pub open spec fn store(self, x: int, y: int, channels: Seq<u8>) -> Frame {
        let at = byte_index(self.stride, x, y, 0);
        Frame {
            bytes: self.bytes.update(at, channels[0]).update(at + 1, channels[1]).update(
                at + 2,
                channels[2],
            ),
            ..self
        }
    }

    /// The frame after pixel `(x, y)` was drawn in `color`: the three channel
    /// bytes of the pixel hold the colour in the order of the format, and every
    /// other byte, the pixel's fourth among them, is as before.
    pub open spec fn put(self, x: int, y: int, color: PixelColor) -> Frame {
        self.store(x, y, self.format.channels(color))
    }

    /// `after` is this frame with exactly the pixels of `region` drawn in
    /// `color`: their channel bytes hold the colour, every other byte is
    /// unchanged.
    pub open spec fn painted(self, after: Frame, region: Set<(int, int)>, color: PixelColor) -> bool {
        &&& self.same_layout(after)
        &&& forall|x: int, y: int, k: int|
            0 <= x < self.stride && 0 <= y < self.height && 0 <= k < 4 ==> after.bytes[#[trigger] byte_index(
                self.stride,
                x,
                y,
                k,
            )] == if k < 3 && region.contains((x, y)) {
                self.format.channels(color)[k]
            } else {
                self.bytes[byte_index(self.stride, x, y, k)]
            }
        &&& forall|i: int|
            4 * self.stride * self.height <= i < self.bytes.len() ==> #[trigger] after.bytes[i]
                == self.bytes[i]
    }
}

/// Drawing nothing leaves the frame as it is.
pub proof fn lemma_paint_nothing(frame: Frame, region: Set<(int, int)>, color: PixelColor)
    requires
        forall|x: int, y: int|
            0 <= x < frame.stride && 0 <= y < frame.height ==> !#[trigger] region.contains((x, y)),
    ensures
        frame.painted(frame, region, color),
{
}

/// Two regions that hold the same pixels of the scan lines paint alike.
pub proof fn lemma_paint_same_region(
    before: Frame,
    after: Frame,
    region: Set<(int, int)>,
    other: Set<(int, int)>,
    color: PixelColor,
)
    requires
        before.painted(after, region, color),
        forall|x: int, y: int|
            0 <= x < before.stride && 0 <= y < before.height ==> (#[trigger] other.contains((x, y))
                <==> region.contains((x, y))),
    ensures
        before.painted(after, other, color),
{
    assert forall|x: int, y: int, k: int|
        0 <= x < before.stride && 0 <= y < before.height && 0 <= k < 4 implies after.bytes[#[trigger] byte_index(
        before.stride,
        x,
        y,
        k,
    )] == if k < 3 && other.contains((x, y)) {
        before.format.channels(color)[k]
    } else {
        before.bytes[byte_index(before.stride, x, y, k)]
    } by {
        assert(other.contains((x, y)) <==> region.contains((x, y)));
    }
}

/// Drawing one more visible pixel in the same colour adds that pixel to the
/// painted region.
pub proof fn lemma_paint_step(
    before: Frame,
    mid: Frame,
    region: Set<(int, int)>,
    x: int,
    y: int,
    color: PixelColor,
    next: Set<(int, int)>,
)
    requires
        before.wf(),
        before.painted(mid, region, color),
        before.contains(x, y),
        forall|px: int, py: int|
            0 <= px < before.stride && 0 <= py < before.height ==> (#[trigger] next.contains(
                (px, py),
            ) <==> region.contains((px, py)) || (px == x && py == y)),
    ensures
        before.painted(mid.put(x, y, color), next, color),
{
    let after = mid.put(x, y, color);
    let stride = before.stride;
    let at = byte_index(stride, x, y, 0);
    let c = before.format.channels(color);
    assert(c.len() == 3);
    lemma_byte_index_bounds(stride, before.height, x, y, 0);
    lemma_byte_index_bounds(stride, before.height, x, y, 3);
    assert forall|px: int, py: int, k: int|
        0 <= px < stride && 0 <= py < before.height && 0 <= k < 4 implies after.bytes[#[trigger] byte_index(
        stride,
        px,
        py,
        k,
    )] == if k < 3 && next.contains((px, py)) {
        c[k]
    } else {
        before.bytes[byte_index(stride, px, py, k)]
    } by {
        let i = byte_index(stride, px, py, k);
        lemma_byte_index_bounds(stride, before.height, px, py, k);
        assert(next.contains((px, py)) <==> region.contains((px, py)) || (px == x && py == y));
        if px == x && py == y {
            assert(i == at + k);
        } else {
            lemma_apart(stride, px, py, k, x, y, 0);
            lemma_apart(stride, px, py, k, x, y, 1);
            lemma_apart(stride, px, py, k, x, y, 2);
        }
    }
}

proof fn lemma_apart(stride: nat, x1: int, y1: int, k1: int, x2: int, y2: int, k2: int)
    requires
        0 <= x1 < stride,
        0 <= x2 < stride,
        0 <= y1,
        0 <= y2,
        0 <= k1 < 4,
        0 <= k2 < 4,
        x1 != x2 || y1 != y2,
    ensures
        byte_index(stride, x1, y1, k1) != byte_index(stride, x2, y2, k2),
{
    if byte_index(stride, x1, y1, k1) == byte_index(stride, x2, y2, k2) {
        lemma_byte_index_injective(stride, x1, y1, k1, x2, y2, k2);
    }
}

/// Drawing one visible pixel paints the region of that pixel alone.
pub proof fn lemma_put_paints(frame: Frame, x: int, y: int, color: PixelColor)
    requires
        frame.wf(),
        frame.contains(x, y),
    ensures
        frame.painted(frame.put(x, y, color), set![(x, y)], color),
{
    lemma_paint_nothing(frame, Set::empty(), color);
    lemma_paint_step(frame, frame, Set::empty(), x, y, color, set![(x, y)]);
}

/// Drawn at the same pixel of frames that differ in their format alone, a
/// colour leaves three bytes in one frame that are those of the other in
/// reverse order.
pub proof fn lemma_formats_write_mirrored(frame: Frame, x: int, y: int, color: PixelColor)
    requires
        frame.wf(),
        frame.contains(x, y),
    ensures
        ({
            let at = byte_index(frame.stride, x, y, 0);
            let rgb = frame.with_format(PixelFormat::PixelRGBResv8BitPerColor).put(x, y, color);
            let bgr = frame.with_format(PixelFormat::PixelBGRResv8BitPerColor).put(x, y, color);
            &&& 0 <= at && at + 4 <= frame.bytes.len()
            &&& rgb.bytes.subrange(at, at + 3) == bgr.bytes.subrange(at, at + 3).reverse()
            &&& rgb.bytes.subrange(at, at + 3) == seq![color.red, color.green, color.blue]
            &&& rgb.bytes[at + 3] == frame.bytes[at + 3]
            &&& bgr.bytes[at + 3] == frame.bytes[at + 3]
        }),
{
    let at = byte_index(frame.stride, x, y, 0);
    lemma_byte_index_bounds(frame.stride, frame.height, x, y, 0);
    lemma_byte_index_bounds(frame.stride, frame.height, x, y, 3);
    let rgb = frame.with_format(PixelFormat::PixelRGBResv8BitPerColor).put(x, y, color);
    let bgr = frame.with_format(PixelFormat::PixelBGRResv8BitPerColor).put(x, y, color);
    assert(rgb.bytes.subrange(at, at + 3) =~= seq![color.red, color.green, color.blue]);
    assert(bgr.bytes.subrange(at, at + 3) =~= seq![color.blue, color.green, color.red]);
    assert(rgb.bytes.subrange(at, at + 3) =~= bgr.bytes.subrange(at, at + 3).reverse());
}

/// Painting one region and then another, in the same colour, paints their
/// union.
pub proof fn lemma_paint_twice(
    before: Frame,
    mid: Frame,
    after: Frame,
    first: Set<(int, int)>,
    second: Set<(int, int)>,
    color: PixelColor,
    both: Set<(int, int)>,
)
    requires
        before.painted(mid, first, color),
        mid.painted(after, second, color),
        forall|x: int, y: int|
            0 <= x < before.stride && 0 <= y < before.height ==> (#[trigger] both.contains((x, y))
                <==> first.contains((x, y)) || second.contains((x, y))),
    ensures
        before.painted(after, both, color),
{
    assert forall|x: int, y: int, k: int|
        0 <= x < before.stride && 0 <= y < before.height && 0 <= k < 4 implies after.bytes[#[trigger] byte_index(
        before.stride,
        x,
        y,
        k,
    )] == if k < 3 && both.contains((x, y)) {
        before.format.channels(color)[k]
    } else {
        before.bytes[byte_index(before.stride, x, y, k)]
    } by {
        assert(both.contains((x, y)) <==> first.contains((x, y)) || second.contains((x, y)));
    }
}

/// Every byte of the scan lines is one byte of one pixel: the pixel and the
/// byte that the lemma returns.
pub proof fn lemma_byte_index_onto(stride: nat, height: nat, i: int) -> (at: (int, int, int))
    requires
        0 <= i < 4 * stride * height,
    ensures
        0 <= at.0 < stride,
        0 <= at.1 < height,
        0 <= at.2 < 4,
        byte_index(stride, at.0, at.1, at.2) == i,
{
    let s = stride as int;
    assert(s > 0 && i < 4 * (s * height)) by (nonlinear_arith)
        requires
            0 <= i < 4 * s * height,
            s >= 0,
    ;
    let q = i / 4;
    let k = i % 4;
    let x = q % s;
    let y = q / s;
    lemma_fundamental_div_mod(q, s);
    lemma_mod_pos_bound(q, s);
    lemma_div_pos_is_pos(q, s);
    assert(y < height) by (nonlinear_arith)
        requires
            q == s * y + x,
            0 <= x,
            q < s * height,
            s > 0,
    ;
    (x, y, k)
}

/// A region and a colour leave one frame only: two frames that are both the
/// same frame painted alike are equal.
pub proof fn lemma_painted_unique(
    before: Frame,
    one: Frame,
    other: Frame,
    region: Set<(int, int)>,
    color: PixelColor,
)
    requires
        before.painted(one, region, color),
        before.painted(other, region, color),
    ensures
        one == other,
{
    assert forall|i: int| 0 <= i < one.bytes.len() implies one.bytes[i] == other.bytes[i] by {
        if i < 4 * before.stride * before.height {
            let at = lemma_byte_index_onto(before.stride, before.height, i);
            assert(one.bytes[byte_index(before.stride, at.0, at.1, at.2)] == other.bytes[byte_index(
                before.stride,
                at.0,
                at.1,
                at.2,
            )]);
        }
    }
    assert(one.bytes =~= other.bytes);
}

/// Painting a region that holds no pixel of the scan lines changes nothing.
pub proof fn lemma_painted_nothing_same(
    before: Frame,
    after: Frame,
    region: Set<(int, int)>,
    color: PixelColor,
)
    requires
        before.painted(after, region, color),
        forall|x: int, y: int|
            0 <= x < before.stride && 0 <= y < before.height ==> !#[trigger] region.contains((x, y)),
    ensures
        after == before,
{
    lemma_paint_nothing(before, region, color);
    lemma_painted_unique(before, after, before, region, color);
}

/// Drawing a visible pixel stores the colour's three channel bytes, in the
/// order of the format, from `4 * (stride * y + x)`, inside the memory, and
/// changes no other byte: not the pixel's fourth, and none of another pixel.
pub proof fn lemma_put_bytes(frame: Frame, x: int, y: int, color: PixelColor)
    requires
        frame.wf(),
        frame.contains(x, y),
    ensures
        ({
            let at = 4 * (frame.stride * y + x);
            let after = frame.put(x, y, color);
            &&& 0 <= at && at + 4 <= frame.bytes.len()
            &&& frame.same_layout(after)
            &&& after.wf()
            &&& after.bytes.subrange(at, at + 3) == frame.format.channels(color)
            &&& forall|i: int|
                0 <= i < frame.bytes.len() && !(at <= i < at + 3) ==> after.bytes[i]
                    == frame.bytes[i]
        }),
{
    let at = byte_index(frame.stride, x, y, 0);
    lemma_byte_index_bounds(frame.stride, frame.height, x, y, 0);
    lemma_byte_index_bounds(frame.stride, frame.height, x, y, 3);
    let after = frame.put(x, y, color);
    assert(after.bytes.subrange(at, at + 3) =~= frame.format.channels(color));
}

} // verus!
