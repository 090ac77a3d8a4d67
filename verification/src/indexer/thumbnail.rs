//! Square previews.

use crate::frame::{cut, Frame, FrameView};
use crate::imaging::{crop, resize_square};
use vstd::prelude::*;

verus! {

/// The side of the largest square that fits a picture.
pub open spec fn short_side(v: FrameView) -> nat {
    if v.width <= v.height {
        v.width
    } else {
        v.height
    }
}

/// The largest square cut from the middle of `v`: the longer dimension
/// loses the same number of pixels at both ends, and one more at the far
/// end if the number to lose is odd.
pub open spec fn center_square(v: FrameView) -> FrameView {
    if v.width == v.height {
        v
    } else if v.width > v.height {
        cut(v, ((v.width - v.height) / 2) as nat, 0, v.height, v.height)
    } else {
        cut(v, 0, ((v.height - v.width) / 2) as nat, v.width, v.width)
    }
}

/// A square preview of `image`: the largest square cut from its middle,
/// resampled to `size` by `size`. Where that square already has the side
/// `size`, it is the preview. A picture without pixels gives a preview of a
/// single pixel.
pub fn squared(image: &Frame, size: u32) -> (r: Frame)
    requires
        image.wf(),
        short_side(image@) * size * 16 <= isize::MAX,
        size * size * 3 <= isize::MAX,
    ensures
        r.wf(),
        short_side(image@) > 0 && size > 0 ==> r.width == size && r.height == size,
        short_side(image@) == 0 && size > 0 ==> r.width == 1 && r.height == 1,
        short_side(image@) == size ==> r@ == center_square(image@),
{
    let (w, h) = (image.width, image.height);

    if w == h {
        return resize_square(image, size);
    }
    let image = if w > h {
        crop(image, (w - h) / 2, 0, h, h)
    } else {
        crop(image, 0, (h - w) / 2, w, w)
    };
    resize_square(&image, size)
}

} // verus!
