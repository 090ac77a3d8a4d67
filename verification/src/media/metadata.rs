//! What is known of a media file besides its picture: when it was taken,
//! and how it is oriented or how long it plays.
//!
//! Reading the file is left to the caller. This module decides what the
//! metadata is from what was read: the tags that a parser found, if any,
//! and the times that the file system keeps for the file.

use crate::exif_orientation::{orientation_of, ExifOrientation};
use crate::media::media_type::MediaType;
use vstd::prelude::*;

verus! {

/// The metadata of a media file. Times are seconds since the epoch.
#[derive(Clone, Copy, Debug, PartialEq, Eq, Structural)]
pub enum MediaMetadata {
    Image { timestamp: i64, orientation: ExifOrientation },
    Video { timestamp: i64, duration_ms: u64 },
}

/// What a parser found in a media file.
#[derive(Clone, Copy, Debug, PartialEq, Eq, Structural)]
pub enum ParsedTags {
    /// Picture tags: the creation time and the orientation code, as far as
    /// they are present.
    Exif { create_date: Option<i64>, orientation: Option<u16> },
    /// Track information: the creation time and the duration in
    /// milliseconds, as far as they are present.
    Track { create_date: Option<i64>, duration_ms: Option<u64> },
    /// Nothing could be parsed.
    Missing,
}

/// The time that the file system vouches for: the earlier of creation and
/// modification, the creation time alone where the other is unknown, and
/// nothing where the creation time is unknown.
pub open spec fn fs_time(created: Option<i64>, modified: Option<i64>) -> Option<i64> {
    match created {
        None => None,
        Some(c) => match modified {
            Some(m) => if c < m {
                Some(c)
            } else {
                Some(m)
            },
            None => Some(c),
        },
    }
}

/// The first of the times `parsed` and `fallback` that is known, or the
/// epoch.
pub open spec fn time_of(parsed: Option<i64>, fallback: Option<i64>) -> i64 {
    match parsed {
        Some(t) => t,
        None => match fallback {
            Some(t) => t,
            None => 0,
        },
    }
}

/// The orientation that a tag value stands for; upright where the tag is
/// absent or holds no orientation code.
pub open spec fn orientation_from_tag(tag: Option<u16>) -> ExifOrientation {
    match tag {
        Some(v) => match orientation_of(v as u64) {
            Some(o) => o,
            None => ExifOrientation::Unchanged,
        },
        None => ExifOrientation::Unchanged,
    }
}

/// The metadata of a file of type `mt`, given what was parsed from it and
/// the time that the file system gives. Tags of the other kind count as
/// missing.
pub open spec fn metadata_of(mt: MediaType, tags: ParsedTags, fallback: Option<i64>) -> MediaMetadata {
    match mt {
        MediaType::Image(_) => match tags {
            ParsedTags::Exif { create_date, orientation } => MediaMetadata::Image {
                timestamp: time_of(create_date, fallback),
                orientation: orientation_from_tag(orientation),
            },
            _ => MediaMetadata::Image {
                timestamp: time_of(None, fallback),
                orientation: ExifOrientation::Unchanged,
            },
        },
        MediaType::Video(_) => match tags {
            ParsedTags::Track { create_date, duration_ms } => MediaMetadata::Video {
                timestamp: time_of(create_date, fallback),
                duration_ms: match duration_ms {
                    Some(d) => d,
                    None => 0,
                },
            },
            _ => MediaMetadata::Video { timestamp: time_of(None, fallback), duration_ms: 0 },
        },
    }
}

/// The time that the file system vouches for, from the creation and the
/// modification time of a file.
pub fn fs_datetime(created: Option<i64>, modified: Option<i64>) -> (r: Option<i64>)
    ensures
        r == fs_time(created, modified),
{
    let created = match created {
        Some(c) => c,
        None => {
            return None;
        },
    };
    if let Some(modified) = modified {
        let min = if created < modified {
            created
        } else {
            modified
        };
        return Some(min);
    }
    Some(created)
}

fn pick_time(parsed: Option<i64>, fallback: Option<i64>) -> (r: i64)
    ensures
        r == time_of(parsed, fallback),
{
    match parsed {
        Some(t) => t,
        None => match fallback {
            Some(t) => t,
            None => 0,
        },
    }
}

fn pick_orientation(tag: Option<u16>) -> (r: ExifOrientation)
    ensures
        r == orientation_from_tag(tag),
{
    match tag {
        Some(v) => match ExifOrientation::try_from(v as u64) {
            Ok(o) => o,
            Err(_) => ExifOrientation::default(),
        },
        None => ExifOrientation::default(),
    }
}

impl MediaMetadata {
    /// The metadata of a file of type `mt`. Where the creation time was not
    /// parsed, the time from the file system stands in, and where that is
    /// unknown too, the epoch. A missing orientation is upright, a missing
    /// duration zero.
    pub fn parse(mt: &MediaType, tags: &ParsedTags, fallback: Option<i64>) -> (r: MediaMetadata)
        ensures
            r == metadata_of(*mt, *tags, fallback),
    {
        match mt {
            MediaType::Image(_) => match tags {
                ParsedTags::Exif { create_date, orientation } => MediaMetadata::Image {
                    timestamp: pick_time(*create_date, fallback),
                    orientation: pick_orientation(*orientation),
                },
                _ => MediaMetadata::Image {
                    timestamp: pick_time(None, fallback),
                    orientation: ExifOrientation::default(),
                },
            },
            MediaType::Video(_) => match tags {
                ParsedTags::Track { create_date, duration_ms } => MediaMetadata::Video {
                    timestamp: pick_time(*create_date, fallback),
                    duration_ms: match duration_ms {
                        Some(d) => *d,
                        None => 0,
                    },
                },
                _ => MediaMetadata::Video {
                    timestamp: pick_time(None, fallback),
                    duration_ms: 0,
                },
            },
        }
    }

    /// The orientation of an image; a video has none.
    pub fn exif_orientation(&self) -> (r: Option<ExifOrientation>)
        ensures
            r == match *self {
                MediaMetadata::Image { orientation, .. } => Some(orientation),
                MediaMetadata::Video { .. } => None,
            },
    {
        match self {
            MediaMetadata::Image { orientation, .. } => Some(*orientation),
            MediaMetadata::Video { .. } => None,
        }
    }

    /// The capture time, in seconds since the epoch.
    pub fn timestamp(&self) -> (r: i64)
        ensures
            r == match *self {
                MediaMetadata::Image { timestamp, .. } => timestamp,
                MediaMetadata::Video { timestamp, .. } => timestamp,
            },
    {
        match self {
            MediaMetadata::Image { timestamp, .. } => *timestamp,
            MediaMetadata::Video { timestamp, .. } => *timestamp,
        }
    }
}

} // verus!
