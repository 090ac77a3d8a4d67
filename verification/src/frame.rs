//! Decoded pictures as plain pixel buffers, and the pixel maps that
//! rotations, mirrorings and cut-outs are.

use vstd::prelude::*;

verus! {

/// A decoded picture: rows of pixels from the top, three bytes per pixel
/// (red, green, blue).
pub struct Frame {
    pub width: u32,
    pub height: u32,
    pub pixels: Vec<u8>,
}

/// The mathematical value of a [`Frame`].
pub struct FrameView {
    pub width: nat,
    pub height: nat,
    pub pixels: Seq<u8>,
}

impl FrameView {
    /// The buffer holds exactly the pixels of a `width` by `height` picture.
    pub open spec fn wf(self) -> bool {
        self.pixels.len() == self.width * self.height * 3
    }

    /// Channel `c` of the pixel in column `x` of row `y`.
    pub open spec fn at(self, x: int, y: int, c: int) -> u8 {
        self.pixels[(y * self.width + x) * 3 + c]
    }
}

/// The `width` by `height` picture whose pixel at `(x, y)` is the pixel of
/// `src` at `(col(x, y), row(x, y))`.
pub open spec fn remap(
    width: nat,
    height: nat,
    src: FrameView,
    col: spec_fn(int, int) -> int,
    row: spec_fn(int, int) -> int,
) -> FrameView {
    FrameView {
        width,
        height,
        pixels: Seq::new(
            width * height * 3,
            |k: int|
                src.at(
                    col((k / 3) % (width as int), (k / 3) / (width as int)),
                    row((k / 3) % (width as int), (k / 3) / (width as int)),
                    k % 3,
                ),
        ),
    }
}

/// `v` mirrored left to right.
pub open spec fn flip_h(v: FrameView) -> FrameView {
    remap(v.width, v.height, v, |x: int, y: int| v.width - 1 - x, |x: int, y: int| y)
}

/// `v` mirrored top to bottom.
pub open spec fn flip_v(v: FrameView) -> FrameView {
    remap(v.width, v.height, v, |x: int, y: int| x, |x: int, y: int| v.height - 1 - y)
}

/// `v` turned by half a turn.
pub open spec fn rot180(v: FrameView) -> FrameView {
    remap(
        v.width,
        v.height,
        v,
        |x: int, y: int| v.width - 1 - x,
        |x: int, y: int| v.height - 1 - y,
    )
}

/// `v` turned a quarter turn clockwise.
pub open spec fn rot90(v: FrameView) -> FrameView {
    remap(v.height, v.width, v, |x: int, y: int| y, |x: int, y: int| v.height - 1 - x)
}

/// `v` turned three quarter turns clockwise.
pub open spec fn rot270(v: FrameView) -> FrameView {
    remap(v.height, v.width, v, |x: int, y: int| v.width - 1 - y, |x: int, y: int| x)
}

/// The `width` by `height` cut-out of `v` whose top left corner is at
/// `(left, top)`.
pub open spec fn cut(v: FrameView, left: nat, top: nat, width: nat, height: nat) -> FrameView {
    remap(width, height, v, |x: int, y: int| left + x, |x: int, y: int| top + y)
}

impl View for Frame {
    type V = FrameView;

    open spec fn view(&self) -> FrameView {
        FrameView {
            width: self.width as nat,
            height: self.height as nat,
            pixels: self.pixels@,
        }
    }
}

impl Frame {
    /// The buffer holds exactly the pixels of the picture.
    pub open spec fn wf(&self) -> bool {
        self@.wf()
    }

    /// A picture over `pixels`, if the buffer has the length that the
    /// dimensions ask for.
    pub fn new(width: u32, height: u32, pixels: Vec<u8>) -> (r: Option<Frame>)
        ensures
            r is Some <==> pixels@.len() == width as nat * height as nat * 3,
            r is Some ==> r->0.wf() && r->0.width == width && r->0.height == height
                && r->0.pixels == pixels,
    {
        assert((width as nat) * (height as nat) <= 0xFFFF_FFFF * 0xFFFF_FFFF) by (nonlinear_arith)
            requires
                width <= 0xFFFF_FFFF,
                height <= 0xFFFF_FFFF,
        ;
        let area: u128 = (width as u128) * (height as u128);
        if pixels.len() as u128 == area * 3 {
            Some(Frame { width, height, pixels })
        } else {
            None
        }
    }
}

} // verus!
