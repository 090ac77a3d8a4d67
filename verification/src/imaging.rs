//! The picture operations that the `image` crate performs for this
//! library: turning and mirroring, cutting out, resampling, and JPEG
//! compression. Nothing in this file is proved; each contract states what
//! the crate does.

use crate::frame::{cut, flip_h, flip_v, rot180, rot270, rot90, Frame, FrameView};
use image::codecs::jpeg::JpegEncoder;
use image::imageops;
use image::imageops::FilterType;
use image::{DynamicImage, RgbImage};
use vstd::prelude::*;

verus! {

/// The error type of the `image` crate.
#[verifier::external_type_specification]
#[verifier::external_body]
pub struct ExImageError(image::ImageError);

/// The JPEG file that the encoder of the `image` crate writes for a
/// picture at a given quality.
pub uninterp spec fn jpeg_bytes(frame: FrameView, quality: u8) -> Seq<u8>;

/// `imageops::flip_horizontal_in_place`: exchanges each pixel with the one
/// at the same height in the mirrored column.
#[verifier::external_body]
pub(crate) fn flip_horizontal(frame: Frame) -> (r: Frame)
    requires
        frame.wf(),
    ensures
        r@ == flip_h(frame@),
{
    let mut img = DynamicImage::ImageRgb8(
        RgbImage::from_raw(frame.width, frame.height, frame.pixels).unwrap(),
    );
    imageops::flip_horizontal_in_place(&mut img);
    let rgb = img.into_rgb8();
    Frame { width: rgb.width(), height: rgb.height(), pixels: rgb.into_raw() }
}

/// `imageops::flip_vertical_in_place`: exchanges each pixel with the one in
/// the same column of the mirrored row.
#[verifier::external_body]
pub(crate) fn flip_vertical(frame: Frame) -> (r: Frame)
    requires
        frame.wf(),
    ensures
        r@ == flip_v(frame@),
{
    let mut img = DynamicImage::ImageRgb8(
        RgbImage::from_raw(frame.width, frame.height, frame.pixels).unwrap(),
    );
    imageops::flip_vertical_in_place(&mut img);
    let rgb = img.into_rgb8();
    Frame { width: rgb.width(), height: rgb.height(), pixels: rgb.into_raw() }
}

/// `imageops::rotate180_in_place`: exchanges each pixel with the one in the
/// mirrored column of the mirrored row.
#[verifier::external_body]
pub(crate) fn rotate180(frame: Frame) -> (r: Frame)
    requires
        frame.wf(),
    ensures
        r@ == rot180(frame@),
{
    let mut img = DynamicImage::ImageRgb8(
        RgbImage::from_raw(frame.width, frame.height, frame.pixels).unwrap(),
    );
    imageops::rotate180_in_place(&mut img);
    let rgb = img.into_rgb8();
    Frame { width: rgb.width(), height: rgb.height(), pixels: rgb.into_raw() }
}

/// `DynamicImage::rotate90`: a picture with width and height exchanged, in
/// which the pixel of column `x` and row `y` of the source stands in column
/// `height - 1 - y` of row `x`.
#[verifier::external_body]
pub(crate) fn rotate90(frame: Frame) -> (r: Frame)
    requires
        frame.wf(),
    ensures
        r@ == rot90(frame@),
{
    let img = DynamicImage::ImageRgb8(
        RgbImage::from_raw(frame.width, frame.height, frame.pixels).unwrap(),
    );
    let rgb = img.rotate90().into_rgb8();
    Frame { width: rgb.width(), height: rgb.height(), pixels: rgb.into_raw() }
}

/// `DynamicImage::rotate270`: a picture with width and height exchanged, in
/// which the pixel of column `x` and row `y` of the source stands in column
/// `y` of row `width - 1 - x`.
#[verifier::external_body]
pub(crate) fn rotate270(frame: Frame) -> (r: Frame)
    requires
        frame.wf(),
    ensures
        r@ == rot270(frame@),
{
    let img = DynamicImage::ImageRgb8(
        RgbImage::from_raw(frame.width, frame.height, frame.pixels).unwrap(),
    );
    let rgb = img.rotate270().into_rgb8();
    Frame { width: rgb.width(), height: rgb.height(), pixels: rgb.into_raw() }
}

/// `DynamicImage::crop_imm` for a rectangle that lies inside the picture:
/// a copy of the pixels of that rectangle.
#[verifier::external_body]
pub(crate) fn crop(frame: &Frame, left: u32, top: u32, width: u32, height: u32) -> (r: Frame)
    requires
        frame.wf(),
        left + width <= frame.width,
        top + height <= frame.height,
    ensures
        r@ == cut(frame@, left as nat, top as nat, width as nat, height as nat),
{
    let img = DynamicImage::ImageRgb8(
        RgbImage::from_raw(frame.width, frame.height, frame.pixels.clone()).unwrap(),
    );
    let rgb = img.crop_imm(left, top, width, height).into_rgb8();
    Frame { width: rgb.width(), height: rgb.height(), pixels: rgb.into_raw() }
}

/// `DynamicImage::resize` with the Lanczos filter of window 3, for a square
/// picture and a square bound. A picture that already has the size asked
/// for comes back unchanged; any other picture that is not empty comes back
/// resampled to `size` by `size`, for a `size` above zero; an empty
/// picture comes back as a single pixel. The resampled colours are computed
/// in floating point and are not stated.
#[verifier::external_body]
pub(crate) fn resize_square(frame: &Frame, size: u32) -> (r: Frame)
    requires
        frame.wf(),
        frame.width == frame.height,
        frame.width as nat * size as nat * 16 <= isize::MAX,
        size as nat * size as nat * 3 <= isize::MAX,
    ensures
        r.wf(),
        size == frame.width ==> r@ == frame@,
        frame.width > 0 && size > 0 ==> r.width == size && r.height == size,
        frame.width == 0 && size > 0 ==> r.width == 1 && r.height == 1,
{
    let img = DynamicImage::ImageRgb8(
        RgbImage::from_raw(frame.width, frame.height, frame.pixels.clone()).unwrap(),
    );
    let rgb = img.resize(size, size, FilterType::Lanczos3).into_rgb8();
    Frame { width: rgb.width(), height: rgb.height(), pixels: rgb.into_raw() }
}

/// `DynamicImage::write_with_encoder` with a `JpegEncoder` of the given
/// quality: the JPEG file of the picture. The encoder writes into memory,
/// which cannot fail, and refuses exactly the pictures whose width or
/// height is zero or above 65535.
#[verifier::external_body]
pub(crate) fn jpeg_encode(frame: &Frame, quality: u8) -> (r: Result<Vec<u8>, image::ImageError>)
    requires
        frame.wf(),
    ensures
        (r is Ok) == (1 <= frame.width <= 0xFFFF && 1 <= frame.height <= 0xFFFF),
        r is Ok ==> r->Ok_0@ == jpeg_bytes(frame@, quality),
{
    let img = DynamicImage::ImageRgb8(
        RgbImage::from_raw(frame.width, frame.height, frame.pixels.clone()).unwrap(),
    );
    let mut bytes = Vec::new();
    let encoder = JpegEncoder::new_with_quality(&mut bytes, quality);
    img.write_with_encoder(encoder).map(|_| bytes)
}

} // verus!
