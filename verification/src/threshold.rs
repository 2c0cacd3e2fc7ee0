use vstd::prelude::*;
use crate::pixel::{black, luminance, luminance_of, white, Pixel};
use crate::raster::{dimensions, duplicate, lemma_cell_position, pixel_at, set_pixel, Grid, Image};

verus! {

/// The fixed cutoff, in thousandths: a colour is bright if its luminance is
/// greater than this, and dark if it is equal or less.
pub const LUMINANCE_CUTOFF: u32 = 128_000;

/// Whether a colour lies on the bright side of the cutoff.
pub open spec fn is_bright(c: Pixel) -> bool {
    luminance_of(c) > LUMINANCE_CUTOFF
}

/// `high` for a bright colour, `low` for a dark one.
pub open spec fn two_tone(c: Pixel, low: Pixel, high: Pixel) -> Pixel {
    if is_bright(c) {
        high
    } else {
        low
    }
}

/// The grid in which every bright cell of `grid` holds `high` and every dark
/// one `low`.
pub open spec fn recolored(grid: Grid, low: Pixel, high: Pixel) -> Grid {
    grid.map_cells(|x: int, y: int, c: Pixel| two_tone(c, low, high))
}

/// The grid in which every bright cell of `grid` is white and every dark one
/// black.
pub open spec fn monochrome(grid: Grid) -> Grid {
    recolored(grid, black(), white())
}

/// Decides one cell: `high` if `pixel` is bright, `low` if it is dark.
pub fn threshold_pixel(pixel: &Pixel, low: Pixel, high: Pixel) -> (c: Pixel)
    ensures
        c == two_tone(*pixel, low, high),
{
    if luminance(pixel) > LUMINANCE_CUTOFF {
        high
    } else {
        low
    }
}

/// Thresholding to two colours of the caller's choice: every pixel whose
/// luminance is greater than the cutoff becomes `color_high`, every other
/// pixel `color_low`. The input is left as it is and the result has its
/// dimensions.
pub fn threshold_to_custom_colors(
    image: &Image,
    color_low: Pixel,
    color_high: Pixel,
) -> (out: Image)
    ensures
        out@.width == image@.width,
        out@.height == image@.height,
        out@ == recolored(image@, color_low, color_high),
        out@.wf(),
{
    let (width, height) = dimensions(image);
    let mut out = duplicate(image);
    let mut y: u32 = 0;
    while y < height
        invariant
            y <= height,
            image@.wf(),
            image@.width == width,
            image@.height == height,
            out@.agrees_up_to(recolored(image@, color_low, color_high), y * width),
        decreases height - y,
    {
        let mut x: u32 = 0;
        while x < width
            invariant
                x <= width,
                y < height,
                image@.wf(),
                image@.width == width,
                image@.height == height,
                out@.agrees_up_to(recolored(image@, color_low, color_high), y * width + x),
            decreases width - x,
        {
            proof {
                lemma_cell_position(image@, x as int, y as int);
            }
            let pixel = pixel_at(image, x, y);
            set_pixel(&mut out, x, y, threshold_pixel(&pixel, color_low, color_high));
            x += 1;
        }
        assert((y + 1) * width == y * width + width) by (nonlinear_arith);
        y += 1;
    }
    assert(out@.pixels =~= recolored(image@, color_low, color_high).pixels);
    out
}

/// Thresholding to black and white: every pixel whose luminance is greater
/// than the cutoff becomes white, every other pixel black. The input is left
/// as it is and the result has its dimensions.
pub fn threshold_to_monochrome(image: &Image) -> (out: Image)
    ensures
        out@.width == image@.width,
        out@.height == image@.height,
        out@ == monochrome(image@),
        out@.wf(),
{
    threshold_to_custom_colors(image, Pixel::black(), Pixel::white())
}

/// A colour whose luminance is exactly the cutoff is dark: it becomes the low
/// colour, black under `monochrome`.
pub proof fn cutoff_is_dark(c: Pixel, low: Pixel, high: Pixel)
    requires
        luminance_of(c) == LUMINANCE_CUTOFF,
    ensures
        !is_bright(c),
        two_tone(c, low, high) == low,
        two_tone(c, black(), white()) == black(),
{
}

/// Thresholding to black and white twice gives what thresholding once gives:
/// black is dark and stays black, white is bright and stays white.
pub proof fn monochrome_is_idempotent(grid: Grid)
    ensures
        monochrome(monochrome(grid)) == monochrome(grid),
{
    assert(!is_bright(black()));
    assert(is_bright(white()));
    assert(monochrome(monochrome(grid)).pixels =~= monochrome(grid).pixels);
}

} // verus!
