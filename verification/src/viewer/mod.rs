//! What the viewer shows: the window of thumbnails over the index.

pub mod image_grid_model;
pub mod media_loader;
