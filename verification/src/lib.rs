//! A verified image-filter pipeline: an ordered queue of filter commands,
//! the filter algorithms themselves, and the stepwise render engine that
//! executes a queue snapshot while reporting progress.

pub mod convolve;
pub mod error;
pub mod filter;
pub mod gauss;
pub mod jpeg;
pub mod noise;
pub mod persist;
pub mod pixel_ops;
pub mod queue;
pub mod raster;
pub mod resize;
pub mod worker;
