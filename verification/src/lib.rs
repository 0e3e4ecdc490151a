//! Palette reduction of raster images by dithering.
//!
//! A raster of 8-bit RGBA pixels is quantised to a fixed palette by one of
//! four algorithms: plain thresholding, thresholding after a random
//! perturbation, and the error-diffusion schemes of Floyd and Steinberg and
//! of Stucki. The algorithms are generic over the colour space in which the
//! work is done and over the measure of difference between two colours.
//!
//! Colours in a working space and the distances between them are computed in
//! floating point by the implementor of [`color::WorkingColor`] and
//! [`distance::Difference`]. Nothing is assumed of those computations: every
//! contract in this crate relates the raster that comes out to the values
//! that those functions returned while it was made. Where they are
//! functions, so are thresholding and error diffusion, and the random
//! algorithm from one state of its generator; [`determinism`] and [`random`]
//! prove it.
//!
//! The raster is an image buffer of the `image` crate, and the generator of
//! the random algorithm is the small generator of the `rand` crate. What
//! this crate takes for granted of the two is stated on the functions in
//! [`raster`] and [`color`] that call them.
pub mod bw;
pub mod color;
pub mod determinism;
pub mod diffusion;
pub mod distance;
pub mod dither;
pub mod engine;
pub mod kernel;
pub mod palette;
pub mod parse;
pub mod pixel;
pub mod random;
pub mod raster;
