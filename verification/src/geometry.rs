//! Plain enumerations of the 2D geometry model (mirror axis, image processing
//! mode). The measured geometry itself (boxes, outlines in millimetres) is
//! kept by the caller.

use vstd::prelude::*;

verus! {

/// Mirror axis: `Vertical` mirrors at a vertical line x = coord (swaps left
/// and right), `Horizontal` at y = coord (swaps top and bottom).
#[derive(Debug, Clone, Copy, PartialEq, Eq, Structural)]
pub enum Axis {
    Vertical,
    Horizontal,
}

/// How an image is turned into 1 bit for lasering. `Grayscale`/`Threshold`
/// are the threshold path (line art); the others are dither methods for
/// photos.
#[derive(Debug, Clone, Copy, PartialEq, Eq, Structural)]
pub enum ImageMode {
    /// Pure grey scale (no threshold).
    Grayscale,
    /// Hard threshold: pixel ≥ threshold → light, else dark.
    Threshold,
    /// Floyd–Steinberg error diffusion (default for photos).
    Floyd,
    /// Jarvis–Judice–Ninke (softer, wider kernel).
    Jarvis,
    /// Stucki (like Jarvis, sharper edges).
    Stucki,
    /// Atkinson (lighter, classic look).
    Atkinson,
    /// Ordered 4×4 Bayer pattern.
    Bayer,
    /// Floyd with scan hysteresis: long burn runs instead of single pixels.
    LaserRuns,
}

impl ImageMode {
    /// The default mode of new image parameters.
    pub fn default_mode() -> (m: ImageMode)
        ensures
            m == ImageMode::Grayscale,
    {
        ImageMode::Grayscale
    }
}

} // verus!
