//! Captures what a GPU scans out and decodes it into an RGB raster: linear, tiled and
//! chroma-subsampled layouts, and the kernel calls that map and release the buffer.

pub mod raster;
pub mod tiling;
pub mod framebuffer;
pub mod image_decoder;
pub mod column;
pub mod dump_image;
pub mod drivers;
pub mod capture;
