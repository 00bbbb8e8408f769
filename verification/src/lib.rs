//! Verified core of a photo-mosaic generator: frame colour extraction,
//! tile layout, colour matching and seam blending.

pub mod app;
pub mod color_matcher;
pub mod decimal;
pub mod ffmpeg;
pub mod images;
pub mod numeric;
pub mod raster;
pub mod tasks;
pub mod text;
pub mod tile_blender;
pub mod ui;
