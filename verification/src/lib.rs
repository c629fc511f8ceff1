//! Decoder for a binary terrain-map format: a fixed little-endian header
//! followed by a run-length-encoded grid of per-tile records, plus the
//! pure coordinate mapping and rasterization that turn the decoded grid
//! into a grayscale pixel grid.

pub mod cursor;
pub mod error;
pub mod header;
pub mod raster;
pub mod tiles;
