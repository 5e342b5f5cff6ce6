//! A Deep Zoom Image (DZI) tiler.
//!
//! The library turns a decoded RGB raster into a multi-resolution pyramid of
//! overlapping JPEG tiles plus the XML descriptor that deep-zoom viewers
//! consume.  All geometry (level count, per-level dimensions, tile grid and
//! per-tile pixel bounds) is computed with exact integer arithmetic and is
//! verified; encoding and resampling are delegated to the `image` crate.

pub mod codec;
pub mod descriptor;
pub mod error;
pub mod geometry;
pub mod pipeline;
pub mod raster;
pub mod text;
pub mod tiler;

pub use error::DZIResult;
pub use error::TilingError;
pub use raster::RgbRaster;
pub use tiler::TileCreator;
