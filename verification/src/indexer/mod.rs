//! The indexing pass: clear the validity flags, confirm or store an entry
//! for each file found, delete what was not confirmed, and rebuild the
//! position table.
//!
//! Walking the source trees and reading the files is left to the caller;
//! it hands in paths, fingerprints, metadata and decoded previews, and asks
//! for a file's preview only where this module finds the file new or
//! changed.

pub mod filehash;
pub mod media_decoder;
pub mod thumbnail;

use self::thumbnail::{center_square, short_side, squared};
use crate::db::{is_time_order, DbError, IndexDb, InsertionEntry, InsertionView};
use crate::exif_orientation::{code_of, upright, ExifOrientation};
use crate::frame::{Frame, FrameView};
use crate::image_loader::DecodedImage;
use crate::imaging::{jpeg_bytes, jpeg_encode};
use crate::media::media_type::{file_name, file_name_start, media_type_of, MediaType};
use crate::media::metadata::MediaMetadata;
use crate::text::{
    digits, lemma_digits_injective, lemma_digits_no_colon, lemma_split_at_colon, push_digits,
};
use vstd::prelude::*;
use vstd::string::StringSliceAdditionalSpecFns;

verus! {

/// The side of a thumbnail, in pixels.
pub const THUMBNAIL_SIZE: u32 = 470;

/// The quality at which thumbnails are compressed.
pub const THUMBNAIL_QUALITY: u8 = 70;

/// Why a file could not be indexed, or a pass not be completed.
#[derive(Clone, Copy, Debug, PartialEq, Eq, Structural)]
pub enum IndexError {
    /// The store refused an operation.
    Store(DbError),
    /// The path does not name a supported kind of media.
    InvalidMediaType,
    /// The preview is too large to be resampled in memory.
    FrameTooLarge,
    /// The thumbnail could not be compressed.
    Encode,
}

/// What is to be done for a file.
#[derive(Clone, Copy, Debug, PartialEq, Eq, Structural)]
pub enum IndexStep {
    /// The file is unchanged; its entry has been confirmed.
    Unchanged,
    /// The file is new or changed; its metadata and preview are wanted.
    Extract(MediaType),
}

/// The 64-bit pattern of `value`, read as an unsigned number.
pub open spec fn unsigned(value: i64) -> nat {
    if value >= 0 {
        value as nat
    } else {
        (value + 0x1_0000_0000_0000_0000) as nat
    }
}

/// The fingerprint of a file of `len` bytes that was last modified at
/// `modified` seconds since the epoch: both in hexadecimal, with a colon
/// between them.
pub open spec fn finfo_of(len: u64, modified: i64) -> Seq<char> {
    digits(len as nat, 16) + seq![':'] + digits(unsigned(modified), 16)
}

/// Whether the file name of `path` is not empty and does not begin with a
/// dot.
pub open spec fn visible(path: Seq<u8>) -> bool {
    file_name(path).len() > 0 && file_name(path)[0] != 0x2e
}

/// The fingerprint by which a changed file is told from an unchanged one.
pub fn get_finfo_str(len: u64, modified: i64) -> (finfo: String)
    ensures
        finfo@ == finfo_of(len, modified),
{
    let pattern: u64 = if modified >= 0 {
        modified as u64
    } else {
        ((modified - i64::MIN) as u64) + 0x8000_0000_0000_0000
    };
    let mut finfo = String::new();
    push_digits(&mut finfo, len, 16);
    finfo.push(':');
    push_digits(&mut finfo, pattern, 16);
    finfo
}

/// Whether the file at `path` is not hidden.
pub fn is_not_hidden(path: &str) -> (r: bool)
    ensures
        r == visible(path.spec_bytes()),
{
    let bytes = path.as_bytes();
    let start = file_name_start(bytes);
    start < bytes.len() && bytes[start] != 0x2e
}

/// Whether the file at `path` is to be indexed: it is not hidden, and its
/// extension names a supported kind of media.
pub fn is_candidate(path: &str) -> (r: bool)
    ensures
        r == (visible(path.spec_bytes()) && media_type_of(path.spec_bytes()) is Some),
{
    is_not_hidden(path) && MediaType::from_path(path).is_some()
}

/// The number that the store keeps for a file: the orientation code of an
/// image, the duration of a video in milliseconds.
pub open spec fn meta_of(metadata: MediaMetadata) -> u64 {
    match metadata {
        MediaMetadata::Image { orientation, .. } => code_of(orientation),
        MediaMetadata::Video { duration_ms, .. } => duration_ms,
    }
}

/// The number that the store keeps for a file.
pub fn db_meta(metadata: &MediaMetadata) -> (r: u64)
    ensures
        r == meta_of(*metadata),
{
    match metadata {
        MediaMetadata::Image { orientation, .. } => u64::from(*orientation),
        MediaMetadata::Video { duration_ms, .. } => *duration_ms,
    }
}

/// Whether a picture is small enough to be resampled to a thumbnail.
pub open spec fn fits_memory(image: Frame) -> bool {
    short_side(image@) * THUMBNAIL_SIZE * 16 <= isize::MAX
}

/// Compresses a thumbnail. A picture without pixels, or with a side of
/// more than 65535 pixels, cannot be compressed; any other picture can.
pub fn encode_jpeg(image: &Frame) -> (r: Result<Vec<u8>, IndexError>)
    requires
        image.wf(),
    ensures
        match r {
            Ok(bytes) => 1 <= image.width <= 0xFFFF && 1 <= image.height <= 0xFFFF && bytes@
                == jpeg_bytes(image@, THUMBNAIL_QUALITY),
            Err(e) => !(1 <= image.width <= 0xFFFF && 1 <= image.height <= 0xFFFF) && e
                == IndexError::Encode,
        },
{
    match jpeg_encode(image, THUMBNAIL_QUALITY) {
        Ok(bytes) => Ok(bytes),
        Err(_) => Err(IndexError::Encode),
    }
}

/// The thumbnail of a preview whose shorter side already has the length of
/// a thumbnail's side: the square cut from its middle, set upright unless
/// the decoder has done so.
pub open spec fn cut_thumbnail(preview: DecodedImage, orientation: ExifOrientation) -> FrameView {
    match preview {
        DecodedImage::WithTransformations(f) => center_square(f@),
        DecodedImage::WithoutTransformations(f) => upright(orientation, center_square(f@)),
    }
}

/// The upright square thumbnail of a preview: the square cut from the
/// middle of the preview, resampled to the side of a thumbnail, and set
/// upright unless the decoder has done so.
pub fn thumbnail_frame(preview: DecodedImage, orientation: ExifOrientation) -> (r: Result<
    Frame,
    IndexError,
>)
    requires
        preview.frame().wf(),
    ensures
        match r {
            Ok(thumbnail) => fits_memory(preview.frame()) && thumbnail.wf() && (short_side(
                preview.frame()@,
            ) > 0 ==> thumbnail.width == THUMBNAIL_SIZE && thumbnail.height == THUMBNAIL_SIZE)
                && (short_side(preview.frame()@) == 0 ==> thumbnail.width == 1 && thumbnail.height
                == 1) && (short_side(preview.frame()@) == THUMBNAIL_SIZE ==> thumbnail@
                == cut_thumbnail(
                preview,
                orientation,
            )),
            Err(e) => !fits_memory(preview.frame()) && e == IndexError::FrameTooLarge,
        },
{
    let side: u32 = match &preview {
        DecodedImage::WithTransformations(f) => if f.width <= f.height {
            f.width
        } else {
            f.height
        },
        DecodedImage::WithoutTransformations(f) => if f.width <= f.height {
            f.width
        } else {
            f.height
        },
    };
    let need: u128 = (side as u128) * (THUMBNAIL_SIZE as u128) * 16;
    if need > isize::MAX as u128 {
        return Err(IndexError::FrameTooLarge);
    }
    let shrink = |img: Frame| -> (out: Frame)
        requires
            img.wf(),
            short_side(img@) * THUMBNAIL_SIZE * 16 <= isize::MAX,
        ensures
            out.wf(),
            short_side(img@) > 0 ==> out.width == THUMBNAIL_SIZE && out.height == THUMBNAIL_SIZE,
            short_side(img@) == 0 ==> out.width == 1 && out.height == 1,
            short_side(img@) == THUMBNAIL_SIZE ==> out@ == center_square(img@),
        { squared(&img, THUMBNAIL_SIZE) };
    let small = preview.map(shrink);
    Ok(small.oriented(orientation))
}

/// The orientation that `media_meta` asks for: that of an image, none for
/// a video.
pub open spec fn orientation_for(media_meta: MediaMetadata) -> ExifOrientation {
    match media_meta {
        MediaMetadata::Image { orientation, .. } => orientation,
        MediaMetadata::Video { .. } => ExifOrientation::Unchanged,
    }
}

/// Whether `bytes` is the compressed form of some square picture of the
/// side `side`.
pub open spec fn is_thumbnail_file(bytes: Seq<u8>, side: nat) -> bool {
    exists|t: FrameView|
        t.wf() && t.width == side && t.height == side && bytes == #[trigger] jpeg_bytes(
            t,
            THUMBNAIL_QUALITY,
        )
}

/// The side of the thumbnail of a preview: that of a thumbnail, or a
/// single pixel for a preview without pixels.
pub open spec fn thumbnail_side(preview: DecodedImage) -> nat {
    if short_side(preview.frame()@) > 0 {
        THUMBNAIL_SIZE as nat
    } else {
        1
    }
}

/// The compressed thumbnail of a preview, set upright as `media_meta`
/// asks. Every preview that fits the memory has one, and it is the
/// compressed form of a square picture. Where the shorter side of the
/// preview already has the length of a thumbnail's side, the thumbnail is
/// the compressed square cut from its middle.
pub fn thumbnail_of(media_meta: &MediaMetadata, preview: DecodedImage) -> (r: Result<
    Vec<u8>,
    IndexError,
>)
    requires
        preview.frame().wf(),
    ensures
        match r {
            Ok(bytes) => fits_memory(preview.frame()) && is_thumbnail_file(
                bytes@,
                thumbnail_side(preview),
            ) && (short_side(preview.frame()@) == THUMBNAIL_SIZE ==> bytes@ == jpeg_bytes(
                cut_thumbnail(preview, orientation_for(*media_meta)),
                THUMBNAIL_QUALITY,
            )),
            Err(e) => !fits_memory(preview.frame()) && e == IndexError::FrameTooLarge,
        },
{
    let orientation = match media_meta.exif_orientation() {
        Some(o) => o,
        None => ExifOrientation::default(),
    };
    let thumbnail = match thumbnail_frame(preview, orientation) {
        Ok(t) => t,
        Err(e) => {
            return Err(e);
        },
    };
    let r = encode_jpeg(&thumbnail);
    proof {
        if r is Ok {
            assert(r->Ok_0@ == jpeg_bytes(thumbnail@, THUMBNAIL_QUALITY));
            assert(thumbnail@.wf());
        }
    }
    r
}

/// Clears the way for a pass: creates the entry table if it is missing and
/// clears every validity flag.
pub fn start_pass(db: &mut IndexDb) -> (r: Result<(), IndexError>)
    requires
        old(db).wf(),
    ensures
        final(db).wf(),
        r is Ok,
        final(db)@ == old(db)@.created().invalidated(),
{
    match db.create_index_if_not_exists() {
        Ok(_) => {},
        Err(e) => {
            return Err(IndexError::Store(e));
        },
    }
    match db.invalidate_index() {
        Ok(_) => Ok(()),
        Err(e) => Err(IndexError::Store(e)),
    }
}

/// Decides what is to be done for the file at `path` with the fingerprint
/// `finfo`. An entry with that path and fingerprint is confirmed, and the
/// file needs no further work; otherwise the kind of media is told from the
/// path, so that the caller can extract metadata and preview.
pub fn index_file(db: &mut IndexDb, path: &str, finfo: &str) -> (r: Result<IndexStep, IndexError>)
    requires
        old(db).wf(),
    ensures
        final(db).wf(),
        old(db)@.has_media ==> final(db)@ == old(db)@.marked(path@, finfo@),
        !old(db)@.has_media ==> final(db)@ == old(db)@,
        match r {
            Ok(IndexStep::Unchanged) => old(db)@.has_media && old(db)@.matches(path@, finfo@),
            Ok(IndexStep::Extract(mt)) => old(db)@.has_media && !old(db)@.matches(path@, finfo@)
                && media_type_of(path.spec_bytes()) == Some(mt),
            Err(IndexError::Store(e)) => !old(db)@.has_media && e == DbError::NoMediaTable,
            Err(IndexError::InvalidMediaType) => old(db)@.has_media && !old(db)@.matches(
                path@,
                finfo@,
            ) && media_type_of(path.spec_bytes()) is None,
            Err(_) => false,
        },
{
    match db.set_valid_if_unchanged(path, finfo) {
        Ok(true) => {
            return Ok(IndexStep::Unchanged);
        },
        Ok(false) => {},
        Err(e) => {
            return Err(IndexError::Store(e));
        },
    }
    match MediaType::from_path(path) {
        Some(media_type) => Ok(IndexStep::Extract(media_type)),
        None => Err(IndexError::InvalidMediaType),
    }
}

/// What is stored for a file.
pub open spec fn entry_of(
    path: Seq<char>,
    finfo: Seq<char>,
    media_meta: MediaMetadata,
    thumbnail: Seq<u8>,
) -> InsertionView {
    InsertionView {
        path,
        finfo,
        timestamp: match media_meta {
            MediaMetadata::Image { timestamp, .. } => timestamp,
            MediaMetadata::Video { timestamp, .. } => timestamp,
        },
        metadata: meta_of(media_meta),
        thumbnail,
    }
}

/// Stores the entry of a new or changed file: its path and fingerprint,
/// the capture time and the number that its metadata gives, and its
/// compressed thumbnail.
pub fn store_entry(
    db: &mut IndexDb,
    path: &str,
    finfo: &str,
    media_meta: &MediaMetadata,
    thumbnail: &[u8],
) -> (r: Result<(), IndexError>)
    requires
        old(db).wf(),
    ensures
        final(db).wf(),
        match r {
            Ok(_) => old(db)@.has_media && meta_of(*media_meta) <= i64::MAX && (old(db)@.contains_path(path@) || old(db)@.next_id() <= u64::MAX) && final(db)@ == old(db)@.upserted(entry_of(path@, finfo@, *media_meta, thumbnail@)),
            Err(IndexError::Store(DbError::NoMediaTable)) => !old(db)@.has_media && final(db)@
                == old(db)@,
            Err(IndexError::Store(DbError::MetadataOutOfRange)) => old(db)@.has_media && meta_of(
                *media_meta,
            ) > i64::MAX && final(db)@ == old(db)@,
            Err(IndexError::Store(DbError::Full)) => old(db)@.has_media && meta_of(*media_meta)
                <= i64::MAX && !old(db)@.contains_path(path@) && old(db)@.next_id() > u64::MAX
                && final(db)@ == old(db)@,
            Err(_) => false,
        },
{
    let entry = InsertionEntry {
        path,
        finfo,
        timestamp: media_meta.timestamp(),
        metadata: db_meta(media_meta),
        thumbnail,
    };
    assert(entry@ == entry_of(path@, finfo@, *media_meta, thumbnail@));
    match db.upsert_entry(&entry) {
        Ok(_) => Ok(()),
        Err(e) => Err(IndexError::Store(e)),
    }
}

/// Completes a pass: deletes the entries that were not confirmed and
/// rebuilds the position table. Without an entry table the pass fails and
/// the store stays as it is.
pub fn finish_pass(db: &mut IndexDb) -> (r: Result<(), IndexError>)
    requires
        old(db).wf(),
    ensures
        final(db).wf(),
        old(db)@.has_media ==> r is Ok && final(db)@.has_media
            && final(db)@.rows == old(db)@.cleaned().rows && final(db)@.order is Some
            && is_time_order(
            final(db)@.rows,
            final(db)@.order->0,
        ),
        !old(db)@.has_media ==> r == Err::<(), IndexError>(
            IndexError::Store(DbError::NoMediaTable),
        ) && final(db)@ == old(db)@,
{
    match db.cleanup_index() {
        Ok(_) => {},
        Err(e) => {
            return Err(IndexError::Store(e));
        },
    }
    match db.rebuild_order_table() {
        Ok(_) => Ok(()),
        Err(e) => Err(IndexError::Store(e)),
    }
}

/// The fingerprint tells files apart: any change of the length or of the
/// modification time changes it.
pub proof fn lemma_finfo_injective(len_a: u64, modified_a: i64, len_b: u64, modified_b: i64)
    requires
        finfo_of(len_a, modified_a) == finfo_of(len_b, modified_b),
    ensures
        len_a == len_b,
        modified_a == modified_b,
{
    lemma_digits_no_colon(len_a as nat, 16);
    lemma_digits_no_colon(len_b as nat, 16);
    lemma_split_at_colon(
        digits(len_a as nat, 16),
        digits(unsigned(modified_a), 16),
        digits(len_b as nat, 16),
        digits(unsigned(modified_b), 16),
    );
    lemma_digits_injective(len_a as nat, len_b as nat, 16);
    lemma_digits_injective(unsigned(modified_a), unsigned(modified_b), 16);
}

} // verus!
