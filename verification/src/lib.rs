//! A self-contained BMP image codec and resampler.
//!
//! The decoder turns a BMP byte buffer into a canonical RGBA pixel buffer,
//! the encoder writes such a buffer back out as a 32-bit BMP with alpha,
//! and the resampler maps an RGBA buffer between dimensions.

pub mod decoder;
pub mod encoder;
pub mod format;
pub mod laws;
pub mod resize;
pub mod utils;
