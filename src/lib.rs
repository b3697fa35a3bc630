//! Integer core of perceptual video-quality metrics: alignment arithmetic,
//! a fixed-point 8x8 DCT with the block statistics of a masking metric,
//! the tap plan of a mirrored separable convolution, and the parsers of
//! the regression-model files that fuse sub-metrics.

pub mod util;
pub mod convolution;
pub mod dct;
pub mod frame;
pub mod psnr_hvs;
pub mod text;
pub mod models;
