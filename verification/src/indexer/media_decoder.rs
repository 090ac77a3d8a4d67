//! Which files a preview can be made of.

use crate::img_decoder;
use crate::media::media_type::{media_type_of, MediaType};
use vstd::prelude::*;
use vstd::string::StringSliceAdditionalSpecFns;

verus! {

/// Whether the extension of `path` names a supported image or video
/// format.
pub fn is_extension_supported(path: &str) -> (r: bool)
    ensures
        r == (media_type_of(path.spec_bytes()) is Some),
{
    is_video(path) || img_decoder::is_extension_supported(path)
}

/// Whether the extension of `path` names a supported video format.
pub fn is_video(path: &str) -> (r: bool)
    ensures
        r == (media_type_of(path.spec_bytes()) is Some && media_type_of(path.spec_bytes())->0
            is Video),
{
    match MediaType::from_path(path) {
        Some(MediaType::Video(_)) => true,
        _ => false,
    }
}

} // verus!
