//! Which files the image decoders take.

use crate::media::media_type::{media_type_of, ImageType, MediaType};
use vstd::prelude::*;
use vstd::string::StringSliceAdditionalSpecFns;

verus! {

/// Whether the extension of `path` names an image format that can be
/// decoded.
pub fn is_extension_supported(path: &str) -> (r: bool)
    ensures
        r == (media_type_of(path.spec_bytes()) is Some && media_type_of(path.spec_bytes())->0
            is Image),
{
    match MediaType::from_path(path) {
        Some(MediaType::Image(_)) => true,
        _ => false,
    }
}

/// Whether the extension of `path` is that of a HEIC picture.
pub fn has_heic_extension(path: &str) -> (r: bool)
    ensures
        r == (media_type_of(path.spec_bytes()) == Some(MediaType::Image(ImageType::Heic))),
{
    match MediaType::from_path(path) {
        Some(MediaType::Image(ImageType::Heic)) => true,
        _ => false,
    }
}

} // verus!
