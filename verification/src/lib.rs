//! Recolouring of RGBA rasters against a fixed palette.
//!
//! Every pixel of an image is replaced by the palette entry nearest to it in
//! RGB space, while its alpha channel is carried over unchanged.

pub mod color;
pub mod palette;
pub mod parse;
pub mod raster;
pub mod remap;
