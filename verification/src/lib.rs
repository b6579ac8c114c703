//! Verified banded image blurring.
//!
//! The library smooths a raster image in horizontal bands: a box blur over
//! the top third, a Gaussian blur over the middle third, and two marker
//! lines drawn at the band boundaries.  Every stage is specified pixel by
//! pixel and proved against that specification.

pub mod box_blur;
pub mod gaussian_blur;
pub mod laws;
pub mod overlay;
pub mod pipeline;
pub mod raster;
pub mod sampler;
