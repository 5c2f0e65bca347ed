//! Isolating the items of a scanned sheet: chroma-key removal, mask
//! clean-up, separation into blobs, deskew estimation and crop geometry.

pub mod alpha_channel;
pub mod angle;
pub mod buffer;
pub mod decoder;
pub mod detection;
pub mod dpi;
pub mod drawing;
pub mod extraction;
pub mod extractor;
pub mod geometry;
pub mod io;
pub mod kernels;
