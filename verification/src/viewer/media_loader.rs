//! Loading one media file for the viewer: which load is in flight, and
//! whether a finished load is still wanted.
//!
//! Decoding runs elsewhere and may finish after the viewer has moved on.
//! The loader admits one load at a time, and a result is delivered only if
//! its load is still the one that was asked for.

use crate::db::{DbError, IndexDb};
use crate::exif_orientation::{orientation_of, ExifOrientation};
use crate::media::media_type::{media_type_of, ImageType, MediaType, VideoType};
use vstd::prelude::*;
use vstd::string::StringSliceAdditionalSpecFns;

verus! {

/// Why a load was not started.
#[derive(Clone, Copy, Debug, PartialEq, Eq, Structural)]
pub enum MediaLoadError {
    /// Another load is in flight.
    AlreadyLoading,
    /// The index gave no entry for the position.
    Store(DbError),
    /// The path does not name a supported kind of media.
    InvalidMediaType,
}

/// How a file is to be loaded.
#[derive(Clone, Copy, Debug, PartialEq, Eq, Structural)]
pub enum MediaInner {
    /// Decode the image and set it upright from the given orientation.
    Image(ImageType, ExifOrientation),
    /// Open the video.
    Video(VideoType),
}

/// The state of the loader: the position whose load is in flight, if any.
pub struct MediaLoader {
    requested_idx: Option<usize>,
}

impl View for MediaLoader {
    type V = Option<usize>;

    closed spec fn view(&self) -> Option<usize> {
        self.requested_idx
    }
}

/// How the file at `path` is to be loaded, given the number that the index
/// keeps for it. For an image that number is the orientation code; a
/// number that is no such code counts as upright.
pub open spec fn load_plan(path: Seq<u8>, metadata_raw: u64) -> Option<MediaInner> {
    match media_type_of(path) {
        None => None,
        Some(MediaType::Image(t)) => Some(
            MediaInner::Image(
                t,
                match orientation_of(metadata_raw) {
                    Some(o) => o,
                    None => ExifOrientation::Unchanged,
                },
            ),
        ),
        Some(MediaType::Video(t)) => Some(MediaInner::Video(t)),
    }
}

impl MediaLoader {
    /// A loader with no load in flight.
    pub fn new() -> (loader: MediaLoader)
        ensures
            loader@ is None,
    {
        MediaLoader { requested_idx: None }
    }

    /// The position whose load is in flight.
    pub fn requested_idx(&self) -> (r: Option<usize>)
        ensures
            r == self@,
    {
        self.requested_idx
    }

    /// Gives up the load in flight: its result will not be delivered.
    pub fn cancel_loading(&mut self)
        ensures
            final(self)@ is None,
    {
        self.requested_idx = None;
    }

    /// Starts the load of position `idx`: returns the path and the metadata
    /// number of the entry, and marks the load as in flight. Refused while
    /// another load is in flight, and where the index has no entry at `idx`;
    /// the loader then stays as it is.
    pub fn load(&mut self, db: &IndexDb, idx: usize) -> (r: Result<(String, u64), MediaLoadError>)
        requires
            db.wf(),
        ensures
            match r {
                Ok((path, metadata)) => old(self)@ is None && db@.entry_at(idx as int) is Some
                    && path@ == db@.entry_at(idx as int)->0.path && metadata == db@.entry_at(
                    idx as int,
                )->0.metadata && final(self)@ == Some(idx),
                Err(MediaLoadError::AlreadyLoading) => old(self)@ is Some && final(self)@ == old(self)@,
                Err(MediaLoadError::Store(e)) => old(self)@ is None && db@.entry_at(idx as int)
                    is None && e == db@.lookup_error(idx as int) && final(self)@ is None,
                Err(_) => false,
            },
    {
        if self.requested_idx.is_some() {
            return Err(MediaLoadError::AlreadyLoading);
        }
        let found = match db.get_path_and_metadata(idx) {
            Ok(found) => found,
            Err(e) => {
                return Err(MediaLoadError::Store(e));
            },
        };
        self.requested_idx = Some(idx);
        Ok(found)
    }

    /// Takes the result of the load of position `idx` and tells whether it
    /// is to be delivered: only if that load is still the one in flight,
    /// which is then over. A result that is no longer wanted changes
    /// nothing.
    pub fn finish(&mut self, idx: usize) -> (deliver: bool)
        ensures
            deliver == (old(self)@ == Some(idx)),
            deliver ==> final(self)@ is None,
            !deliver ==> final(self)@ == old(self)@,
    {
        match self.requested_idx {
            Some(requested) => {
                if requested == idx {
                    self.requested_idx = None;
                    true
                } else {
                    false
                }
            },
            None => false,
        }
    }

    /// How the file at `path` is to be loaded.
    pub fn load_inner(path: &str, metadata_raw: u64) -> (r: Result<MediaInner, MediaLoadError>)
        ensures
            match r {
                Ok(plan) => load_plan(path.spec_bytes(), metadata_raw) == Some(plan),
                Err(e) => load_plan(path.spec_bytes(), metadata_raw) is None && e
                    == MediaLoadError::InvalidMediaType,
            },
    {
        let media_type = match MediaType::from_path(path) {
            Some(t) => t,
            None => {
                return Err(MediaLoadError::InvalidMediaType);
            },
        };
        match media_type {
            MediaType::Image(img_type) => {
                let orientation = match ExifOrientation::try_from(metadata_raw) {
                    Ok(o) => o,
                    Err(_) => ExifOrientation::default(),
                };
                Ok(MediaInner::Image(img_type, orientation))
            },
            MediaType::Video(video_type) => Ok(MediaInner::Video(video_type)),
        }
    }
}

} // verus!
