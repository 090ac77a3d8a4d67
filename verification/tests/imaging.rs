use photoflow::exif_orientation::ExifOrientation;
use photoflow::frame::Frame;
use photoflow::image_loader::{allocate_rgb_buffer, DecodedImage};
use photoflow::indexer::thumbnail::squared;
use photoflow::indexer::{
    encode_jpeg, thumbnail_frame, thumbnail_of, IndexError, THUMBNAIL_QUALITY, THUMBNAIL_SIZE,
};
use photoflow::media::MediaMetadata;

/// A picture whose pixel at (x, y) is (x, y, 7).
fn grid(width: u32, height: u32) -> Frame {
    let mut pixels = Vec::new();
    for y in 0..height {
        for x in 0..width {
            pixels.push(x as u8);
            pixels.push(y as u8);
            pixels.push(7);
        }
    }
    Frame::new(width, height, pixels).unwrap()
}

fn decode(bytes: &[u8]) -> Frame {
    let rgb = image::load_from_memory(bytes).unwrap().into_rgb8();
    let (width, height) = rgb.dimensions();
    Frame::new(width, height, rgb.into_raw()).unwrap()
}

fn px(frame: &Frame, x: u32, y: u32) -> (u8, u8) {
    let at = ((y * frame.width + x) * 3) as usize;
    assert_eq!(frame.pixels[at + 2], 7);
    (frame.pixels[at], frame.pixels[at + 1])
}

#[test]
fn frame_needs_a_buffer_of_the_right_length() {
    assert!(Frame::new(2, 3, vec![0; 18]).is_some());
    assert!(Frame::new(2, 3, vec![0; 17]).is_none());
    assert!(Frame::new(2, 3, vec![0; 19]).is_none());
    assert!(Frame::new(0, 3, vec![]).is_some());
    assert!(Frame::new(u32::MAX, u32::MAX, vec![0; 3]).is_none());
}

#[test]
fn unchanged_orientation_keeps_the_picture() {
    let out = ExifOrientation::Unchanged.apply(grid(3, 2));
    assert_eq!((out.width, out.height), (3, 2));
    assert_eq!(out.pixels, grid(3, 2).pixels);
}

#[test]
fn mirrored_horizontally() {
    let out = ExifOrientation::MirroredHorizontally.apply(grid(3, 2));
    assert_eq!((out.width, out.height), (3, 2));
    assert_eq!(px(&out, 0, 0), (2, 0));
    assert_eq!(px(&out, 2, 1), (0, 1));
    for y in 0..2 {
        for x in 0..3 {
            assert_eq!(px(&out, x, y), ((2 - x) as u8, y as u8));
        }
    }
}

#[test]
fn mirrored_vertically() {
    let out = ExifOrientation::MirroredVertically.apply(grid(3, 2));
    assert_eq!((out.width, out.height), (3, 2));
    assert_eq!(px(&out, 0, 0), (0, 1));
    for y in 0..2 {
        for x in 0..3 {
            assert_eq!(px(&out, x, y), (x as u8, (1 - y) as u8));
        }
    }
}

#[test]
fn rotated_by_half_a_turn() {
    let out = ExifOrientation::Rotated180.apply(grid(3, 3));
    assert_eq!((out.width, out.height), (3, 3));
    assert_eq!(px(&out, 0, 0), (2, 2));
    assert_eq!(px(&out, 1, 1), (1, 1));
    for y in 0..3 {
        for x in 0..3 {
            assert_eq!(px(&out, x, y), ((2 - x) as u8, (2 - y) as u8));
        }
    }
}

#[test]
fn rotated_a_quarter_turn() {
    let out = ExifOrientation::Rotated90.apply(grid(3, 2));
    assert_eq!((out.width, out.height), (2, 3));
    // the top left pixel of the source ends at the top right
    assert_eq!(px(&out, 1, 0), (0, 0));
    assert_eq!(px(&out, 0, 0), (0, 1));
    for y in 0..3 {
        for x in 0..2 {
            assert_eq!(px(&out, x, y), (y as u8, (1 - x) as u8));
        }
    }
}

#[test]
fn rotated_three_quarter_turns() {
    let out = ExifOrientation::Rotated270.apply(grid(3, 2));
    assert_eq!((out.width, out.height), (2, 3));
    // the top left pixel of the source ends at the bottom left
    assert_eq!(px(&out, 0, 2), (0, 0));
    for y in 0..3 {
        for x in 0..2 {
            assert_eq!(px(&out, x, y), ((2 - y) as u8, x as u8));
        }
    }
}

#[test]
fn rotated_and_mirrored() {
    let h = ExifOrientation::Rotated90AndMirroredHorizontally.apply(grid(3, 2));
    assert_eq!((h.width, h.height), (2, 3));
    for y in 0..3 {
        for x in 0..2 {
            assert_eq!(px(&h, x, y), (y as u8, x as u8));
        }
    }
    let v = ExifOrientation::Rotated90AndMirroredVertically.apply(grid(3, 2));
    assert_eq!((v.width, v.height), (2, 3));
    for y in 0..3 {
        for x in 0..2 {
            assert_eq!(px(&v, x, y), ((2 - y) as u8, (1 - x) as u8));
        }
    }
}

#[test]
fn decoded_image_is_oriented_once() {
    let done = DecodedImage::WithTransformations(grid(3, 2));
    let out = done.oriented(ExifOrientation::Rotated90);
    assert_eq!((out.width, out.height), (3, 2));
    assert_eq!(out.pixels, grid(3, 2).pixels);
    let open = DecodedImage::WithoutTransformations(grid(3, 2));
    let out = open.oriented(ExifOrientation::Rotated90);
    assert_eq!((out.width, out.height), (2, 3));
    assert_eq!(px(&out, 1, 0), (0, 0));
}

#[test]
fn map_keeps_the_kind() {
    let mapped = DecodedImage::WithTransformations(grid(2, 2)).map(|_f| grid(5, 1));
    match mapped {
        DecodedImage::WithTransformations(f) => assert_eq!((f.width, f.height), (5, 1)),
        DecodedImage::WithoutTransformations(_) => panic!("kind changed"),
    }
    let mapped = DecodedImage::WithoutTransformations(grid(2, 2)).map(|f| f);
    match mapped {
        DecodedImage::WithoutTransformations(f) => assert_eq!(f.pixels, grid(2, 2).pixels),
        DecodedImage::WithTransformations(_) => panic!("kind changed"),
    }
}

#[test]
fn square_of_the_same_size_is_the_center_cut() {
    // 6 wide, 2 high: the middle 2 columns after losing 2 on each side
    let out = squared(&grid(6, 2), 2);
    assert_eq!((out.width, out.height), (2, 2));
    for y in 0..2 {
        for x in 0..2 {
            assert_eq!(px(&out, x, y), ((x + 2) as u8, y as u8));
        }
    }
    // 2 wide, 5 high: an odd number of rows to lose, the extra one at the far end
    let out = squared(&grid(2, 5), 2);
    assert_eq!((out.width, out.height), (2, 2));
    for y in 0..2 {
        for x in 0..2 {
            assert_eq!(px(&out, x, y), (x as u8, (y + 1) as u8));
        }
    }
    // already square and of the size asked for
    let out = squared(&grid(3, 3), 3);
    assert_eq!(out.pixels, grid(3, 3).pixels);
}

#[test]
fn square_is_resampled_to_the_size_asked_for() {
    let out = squared(&grid(40, 30), 8);
    assert_eq!((out.width, out.height), (8, 8));
    assert_eq!(out.pixels.len(), 8 * 8 * 3);
    let out = squared(&grid(3, 9), 12);
    assert_eq!((out.width, out.height), (12, 12));
    let out = squared(&grid(5, 5), 470);
    assert_eq!((out.width, out.height), (470, 470));
}

#[test]
fn picture_without_pixels_gives_a_single_pixel() {
    let out = squared(&Frame::new(0, 0, vec![]).unwrap(), 8);
    assert_eq!((out.width, out.height), (1, 1));
    assert_eq!(out.pixels.len(), 3);
    let out = squared(&Frame::new(0, 5, vec![]).unwrap(), 470);
    assert_eq!((out.width, out.height), (1, 1));
    let out = squared(&Frame::new(7, 0, vec![]).unwrap(), 470);
    assert_eq!((out.width, out.height), (1, 1));
}

#[test]
fn every_preview_has_a_thumbnail() {
    let meta = MediaMetadata::Video { timestamp: 0, duration_ms: 1 };
    for (w, h) in [(0u32, 0u32), (0, 3), (1, 1), (3, 1), (470, 470), (600, 471)] {
        let frame = Frame::new(w, h, vec![9; (w * h * 3) as usize]).unwrap();
        let bytes = thumbnail_of(&meta, DecodedImage::WithTransformations(frame)).unwrap();
        let shown = decode(&bytes);
        let side = if w == 0 || h == 0 { 1 } else { 470 };
        assert_eq!((shown.width, shown.height), (side, side));
    }
}

#[test]
fn thumbnail_of_the_exact_size_is_the_compressed_cut() {
    let mut pixels = Vec::new();
    for y in 0..470u32 {
        for x in 0..472u32 {
            pixels.push((x % 200) as u8);
            pixels.push((y % 200) as u8);
            pixels.push(7);
        }
    }
    let meta = MediaMetadata::Image { timestamp: 0, orientation: ExifOrientation::Rotated180 };
    let whole = Frame::new(472, 470, pixels.clone()).unwrap();
    let bytes = thumbnail_of(&meta, DecodedImage::WithoutTransformations(whole)).unwrap();
    // the same as compressing the upright cut
    let whole = Frame::new(472, 470, pixels).unwrap();
    let cut = ExifOrientation::Rotated180.apply(squared(&whole, 470));
    assert_eq!(bytes, encode_jpeg(&cut).unwrap());
}

#[test]
fn thumbnail_constants() {
    assert_eq!(THUMBNAIL_SIZE, 470);
    assert_eq!(THUMBNAIL_QUALITY, 70);
}

#[test]
fn thumbnail_is_square_and_upright() {
    let preview = DecodedImage::WithoutTransformations(grid(20, 10));
    let t = thumbnail_frame(preview, ExifOrientation::Rotated90).unwrap();
    assert_eq!((t.width, t.height), (470, 470));
    assert_eq!(t.pixels.len(), 470 * 470 * 3);
}

#[test]
fn thumbnail_bytes_decode_to_the_thumbnail_size() {
    let meta = MediaMetadata::Image { timestamp: 0, orientation: ExifOrientation::Rotated270 };
    let bytes = thumbnail_of(&meta, DecodedImage::WithoutTransformations(grid(9, 30))).unwrap();
    assert!(bytes.len() > 4);
    assert_eq!(&bytes[..2], &[0xff, 0xd8]);
    let shown = decode(&bytes);
    assert_eq!((shown.width, shown.height), (470, 470));
}

#[test]
fn encoded_picture_decodes_to_nearly_the_same_colours() {
    let frame = Frame::new(8, 8, vec![200; 192]).unwrap();
    let bytes = encode_jpeg(&frame).unwrap();
    let shown = decode(&bytes);
    assert_eq!((shown.width, shown.height), (8, 8));
    for v in shown.pixels.iter() {
        assert!(*v >= 195 && *v <= 205);
    }
}

#[test]
fn empty_picture_cannot_be_encoded() {
    let frame = Frame::new(0, 0, vec![]).unwrap();
    assert_eq!(encode_jpeg(&frame), Err(IndexError::Encode));
    let frame = Frame::new(3, 0, vec![]).unwrap();
    assert_eq!(encode_jpeg(&frame), Err(IndexError::Encode));
}

#[test]
fn picture_wider_than_a_jpeg_allows_cannot_be_encoded() {
    let frame = Frame::new(65536, 1, vec![0; 65536 * 3]).unwrap();
    assert_eq!(encode_jpeg(&frame), Err(IndexError::Encode));
    let frame = Frame::new(65535, 1, vec![0; 65535 * 3]).unwrap();
    assert!(encode_jpeg(&frame).is_ok());
}

#[test]
fn thumbnail_of_the_exact_size_is_cut_and_set_upright() {
    // 471 wide, 470 high: the cut loses the last column, then turns a quarter
    let mut pixels = Vec::new();
    for y in 0..470u32 {
        for x in 0..471u32 {
            pixels.push((x % 251) as u8);
            pixels.push((y % 241) as u8);
            pixels.push(7);
        }
    }
    let preview = DecodedImage::WithoutTransformations(Frame::new(471, 470, pixels).unwrap());
    let t = thumbnail_frame(preview, ExifOrientation::Rotated90).unwrap();
    assert_eq!((t.width, t.height), (470, 470));
    // the top left pixel of the cut ends at the top right
    assert_eq!(px(&t, 469, 0), (0, 0));
    assert_eq!(px(&t, 0, 0), (0, (469 % 241) as u8));
    assert_eq!(px(&t, 469, 469), ((469 % 251) as u8, 0));
}

#[test]
fn stride_below_the_row_length_is_refused() {
    assert_eq!(allocate_rgb_buffer(2, 5, &[0; 10]), None);
}

#[test]
fn packed_plane_is_copied() {
    let data: Vec<u8> = (0..12).collect();
    assert_eq!(allocate_rgb_buffer(2, 6, &data), Some(data.clone()));
}

#[test]
fn padding_is_left_out() {
    // 1 pixel a row, stride 5: bytes 3 and 4 of each row are padding
    let data: Vec<u8> = (0..15).collect();
    assert_eq!(allocate_rgb_buffer(1, 5, &data), Some(vec![0, 1, 2, 5, 6, 7, 10, 11, 12]));
    // the last row may lack its padding
    let data: Vec<u8> = (0..13).collect();
    assert_eq!(allocate_rgb_buffer(1, 5, &data), Some(vec![0, 1, 2, 5, 6, 7, 10, 11, 12]));
    assert_eq!(allocate_rgb_buffer(1, 5, &[]), Some(vec![]));
    assert_eq!(allocate_rgb_buffer(0, 4, &[1, 2, 3, 4, 5]), Some(vec![]));
}
