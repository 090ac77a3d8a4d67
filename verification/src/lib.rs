//! Incremental media indexing and a windowed thumbnail cache.
//!
//! The index store keeps one entry per media file and a position table
//! ordered by capture time; the viewport cache materialises a sliding
//! window of positions and reports row additions and removals.

pub mod text;
pub mod util;
pub mod db;
pub mod pass;
pub mod frame;
pub mod imaging;
pub mod media;
pub mod viewer;
pub mod exif_orientation;
pub mod image_loader;
pub mod indexer;
pub mod img_decoder;
pub mod video;
