use vstd::prelude::*;

verus! {

/// One colour sample: red, green and blue, eight bits each.
#[derive(Clone, Copy, Debug, PartialEq, Eq, Hash, Structural)]
pub struct Pixel {
    pub r: u8,
    pub g: u8,
    pub b: u8,
}

/// Pure black.
pub open spec fn black() -> Pixel {
    Pixel { r: 0, g: 0, b: 0 }
}

/// Pure white.
pub open spec fn white() -> Pixel {
    Pixel { r: 255, g: 255, b: 255 }
}

/// Luminance is measured in thousandths of a channel step, so that the
/// perceptual weights are whole numbers.
pub const LUMINANCE_SCALE: u32 = 1000;

/// The luminance of pure white, the largest there is.
pub const MAX_LUMINANCE: u32 = 255_000;

/// Brightness of a colour in thousandths: `299 r + 587 g + 114 b`, which is
/// `LUMINANCE_SCALE` times the perceptual weighting
/// `0.299 r + 0.587 g + 0.114 b`.
pub open spec fn luminance_of(c: Pixel) -> int {
    299 * c.r + 587 * c.g + 114 * c.b
}

impl Pixel {
    /// The colour with the given channels.
    pub fn new(r: u8, g: u8, b: u8) -> (c: Pixel)
        ensures
            c == (Pixel { r, g, b }),
    {
        Pixel { r, g, b }
    }

    /// Pure black.
    pub fn black() -> (c: Pixel)
        ensures
            c == black(),
    {
        Pixel { r: 0, g: 0, b: 0 }
    }

    /// Pure white.
    pub fn white() -> (c: Pixel)
        ensures
            c == white(),
    {
        Pixel { r: 255, g: 255, b: 255 }
    }
}

/// Computes the brightness of `pixel` in thousandths. The weights add up to
/// one thousand, so the result never exceeds that of pure white.
pub fn luminance(pixel: &Pixel) -> (l: u32)
    ensures
        l == luminance_of(*pixel),
        0 <= l <= MAX_LUMINANCE,
{
    299 * (pixel.r as u32) + 587 * (pixel.g as u32) + 114 * (pixel.b as u32)
}

/// A grey has the luminance of its level: equal channels `v` weigh
/// `LUMINANCE_SCALE * v`.
pub proof fn luminance_of_grey(v: u8)
    ensures
        luminance_of(Pixel { r: v, g: v, b: v }) == LUMINANCE_SCALE * v,
{
}

} // verus!
