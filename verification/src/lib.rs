//! Colour reduction for raster images, verified with Verus.
//!
//! Four transforms take an image and give a new image of the same dimensions:
//! thresholding to black and white, thresholding to two colours of the
//! caller's choice, quantization to the nearest colour of a palette, and
//! noise dithering with a seeded source of thresholds. Each decides a pixel
//! from its own colour alone (and, for dithering, from the threshold of its
//! cell), so the contracts describe the result cell by cell.
//!
//! Luminance is counted in thousandths and colour distance is compared by its
//! square: both are whole numbers, and they order colours exactly as the
//! weighted sum and the Euclidean distance do.

pub mod dither;
pub mod palette;
pub mod pixel;
pub mod raster;
pub mod threshold;

pub use crate::dither::{dither_pixel, random_dithering, NoiseSource, THRESHOLD_BOUND};
pub use crate::palette::{apply_palette, closest_index, color_distance_squared, PaletteError};
pub use crate::pixel::{luminance, Pixel, LUMINANCE_SCALE, MAX_LUMINANCE};
pub use crate::raster::Image;
pub use crate::threshold::{
    threshold_pixel, threshold_to_custom_colors, threshold_to_monochrome, LUMINANCE_CUTOFF,
};
