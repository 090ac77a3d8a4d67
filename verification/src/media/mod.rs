//! What kind of media a file holds, and what was read from it.

pub mod media_type;
pub mod metadata;

pub use self::media_type::{ImageType, MediaType, VideoType};
pub use self::metadata::MediaMetadata;
