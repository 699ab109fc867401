//! Renders a raster image as a grid of Unicode Braille glyphs: the image is
//! resampled to an exact dot resolution, each dot is decided from the
//! perceptual lightness of its pixel against a threshold (optionally with
//! error-diffusion dithering), and 2x4 blocks of dots are packed into the
//! bit layout of the Braille Patterns block.

pub mod binary32;
pub mod convert;
pub mod braille;
pub mod dither;
pub mod dot;
pub mod geometry;
pub mod outside;
