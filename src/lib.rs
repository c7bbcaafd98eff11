//! Image compositing and difference heatmaps over exact integer pixel arithmetic.
pub mod pixel;
pub mod raster;
pub mod blend;
pub mod geometry;
pub mod heatmap;
pub mod scene;
pub mod analysis;
