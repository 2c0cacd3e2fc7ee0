use vstd::prelude::*;
use vstd::bytes::{
    lemma_auto_spec_u32_to_from_le_bytes, lemma_auto_spec_u64_to_from_le_bytes,
    spec_u32_from_le_bytes, spec_u32_to_le_bytes, spec_u64_from_le_bytes, spec_u64_to_le_bytes,
    u32_to_le_bytes, u64_to_le_bytes,
};
use rand::{Rng, SeedableRng};
use crate::pixel::{black, luminance, luminance_of, white, Pixel, MAX_LUMINANCE};
use crate::raster::{dimensions, duplicate, lemma_cell_position, pixel_at, set_pixel, Grid, Image};

verus! {

/// Thresholds are drawn from zero up to, and not including, the luminance of
/// pure white.
pub const THRESHOLD_BOUND: u32 = MAX_LUMINANCE;

/// The number that a ChaCha generator with twelve rounds, started from the
/// 32-byte `key`, gives as its first uniform draw below `bound`.
pub uninterp spec fn uniform_draw(key: Seq<u8>, bound: u32) -> u32;

/// `ChaCha12Rng::from_seed` followed by `Rng::gen_range` over `0..bound`: the
/// first draw of a generator that is started from `key`. The generator is a
/// fixed algorithm without any state but its key, so the draw is a function of
/// the key and the bound; `gen_range` stays inside its range, and panics on an
/// empty one, which `requires` leaves out.
#[verifier::external_body]
fn keyed_draw(key: [u8; 32], bound: u32) -> (t: u32)
    requires
        bound > 0,
    ensures
        t == uniform_draw(key@, bound),
        t < bound,
{
    rand_chacha::ChaCha12Rng::from_seed(key).gen_range(0..bound)
}

/// The key of the cell at column `x` of row `y` under `seed`: the seed, the
/// column and the row in little-endian bytes, followed by sixteen zero bytes.
pub open spec fn draw_key(seed: u64, x: u32, y: u32) -> Seq<u8> {
    spec_u64_to_le_bytes(seed) + spec_u32_to_le_bytes(x) + spec_u32_to_le_bytes(y) + Seq::new(
        16,
        |i: int| 0u8,
    )
}

/// The threshold that the cell at column `x` of row `y` is compared with under
/// `seed`.
pub open spec fn threshold_for(seed: u64, x: u32, y: u32) -> u32 {
    uniform_draw(draw_key(seed, x, y), THRESHOLD_BOUND)
}

/// White for a colour whose luminance is greater than the threshold, black
/// for any other.
pub open spec fn dither_choice(c: Pixel, threshold: int) -> Pixel {
    if luminance_of(c) > threshold {
        white()
    } else {
        black()
    }
}

/// The grid in which every cell of `grid` is replaced by black or white,
/// according to the threshold that `seed` gives that cell.
pub open spec fn dithered(grid: Grid, seed: u64) -> Grid {
    grid.map_cells(
        |x: int, y: int, c: Pixel| dither_choice(c, threshold_for(seed, x as u32, y as u32) as int),
    )
}

/// The thresholds that `seed` gives the first `done` cells of `grid`, counted
/// row by row, all lie below the bound.
pub open spec fn thresholds_below_bound(grid: Grid, seed: u64, done: int) -> bool {
    forall|i: int|
        0 <= i < done ==> #[trigger] threshold_for(
            seed,
            grid.column_of(i) as u32,
            grid.row_of(i) as u32,
        ) < THRESHOLD_BOUND
}

/// A source of dithering noise: one threshold for each cell of a grid, fixed
/// by the seed and the cell's coordinates alone.
#[derive(Clone, Copy, Debug, PartialEq, Eq, Structural)]
pub struct NoiseSource {
    pub seed: u64,
}

impl NoiseSource {
    /// The source that `seed` gives.
    pub fn from_seed(seed: u64) -> (source: NoiseSource)
        ensures
            source.seed == seed,
    {
        NoiseSource { seed }
    }

    /// The key of the cell at column `x` of row `y`.
    fn key_at(&self, x: u32, y: u32) -> (key: [u8; 32])
        ensures
            key@ == draw_key(self.seed, x, y),
    {
        let seed_bytes = u64_to_le_bytes(self.seed);
        let x_bytes = u32_to_le_bytes(x);
        let y_bytes = u32_to_le_bytes(y);
        proof {
            lemma_auto_spec_u64_to_from_le_bytes();
            lemma_auto_spec_u32_to_from_le_bytes();
        }
        let mut key: [u8; 32] = [0u8; 32];
        let mut i: usize = 0;
        while i < 8
            invariant
                i <= 8,
                seed_bytes@.len() == 8,
                forall|j: int| 0 <= j < i ==> key@[j] == seed_bytes@[j],
                forall|j: int| i <= j < 32 ==> key@[j] == 0u8,
            decreases 8 - i,
        {
            key[i] = seed_bytes[i];
            i += 1;
        }
        let mut i: usize = 0;
        while i < 4
            invariant
                i <= 4,
                seed_bytes@.len() == 8,
                x_bytes@.len() == 4,
                y_bytes@.len() == 4,
                forall|j: int| 0 <= j < 8 ==> key@[j] == seed_bytes@[j],
                forall|j: int| 0 <= j < i ==> key@[8 + j] == x_bytes@[j],
                forall|j: int| 0 <= j < i ==> key@[12 + j] == y_bytes@[j],
                forall|j: int| 8 + i <= j < 12 ==> key@[j] == 0u8,
                forall|j: int| 12 + i <= j < 32 ==> key@[j] == 0u8,
            decreases 4 - i,
        {
            key[8 + i] = x_bytes[i];
            key[12 + i] = y_bytes[i];
            i += 1;
        }
        assert(key@ =~= draw_key(self.seed, x, y));
        key
    }

    /// Draws the threshold of the cell at column `x` of row `y`. The same
    /// source gives the same cell the same threshold every time, in whatever
    /// order the cells are asked for.
    pub fn threshold_at(&self, x: u32, y: u32) -> (t: u32)
        ensures
            t == threshold_for(self.seed, x, y),
            t < THRESHOLD_BOUND,
    {
        keyed_draw(self.key_at(x, y), THRESHOLD_BOUND)
    }
}

/// Decides one cell: white if the luminance of `pixel` is greater than
/// `threshold`, given in thousandths, black if it is not.
pub fn dither_pixel(pixel: &Pixel, threshold: u32) -> (c: Pixel)
    ensures
        c == dither_choice(*pixel, threshold as int),
{
    if luminance(pixel) > threshold {
        Pixel::white()
    } else {
        Pixel::black()
    }
}

/// Noise dithering: every pixel becomes white if its luminance is greater
/// than a threshold drawn for its cell from `source`, black if it is not.
/// Every threshold lies below `THRESHOLD_BOUND`. The input is left as it is
/// and the result has its dimensions.
pub fn random_dithering(image: &Image, source: &NoiseSource) -> (out: Image)
    ensures
        out@.width == image@.width,
        out@.height == image@.height,
        out@ == dithered(image@, source.seed),
        out@.wf(),
        forall|x: u32, y: u32|
            x < image@.width && y < image@.height ==> #[trigger] threshold_for(source.seed, x, y)
                < THRESHOLD_BOUND,
{
    let (width, height) = dimensions(image);
    let mut out = duplicate(image);
    let mut y: u32 = 0;
    while y < height
        invariant
            y <= height,
            image@.wf(),
            image@.width == width,
            image@.height == height,
            out@.agrees_up_to(dithered(image@, source.seed), y * width),
            thresholds_below_bound(image@, source.seed, y * width),
        decreases height - y,
    {
        let mut x: u32 = 0;
        while x < width
            invariant
                x <= width,
                y < height,
                image@.wf(),
                image@.width == width,
                image@.height == height,
                out@.agrees_up_to(dithered(image@, source.seed), y * width + x),
                thresholds_below_bound(image@, source.seed, y * width + x),
            decreases width - x,
        {
            proof {
                lemma_cell_position(image@, x as int, y as int);
            }
            let pixel = pixel_at(image, x, y);
            let threshold = source.threshold_at(x, y);
            set_pixel(&mut out, x, y, dither_pixel(&pixel, threshold));
            x += 1;
        }
        assert((y + 1) * width == y * width + width) by (nonlinear_arith);
        y += 1;
    }
    assert(out@.pixels =~= dithered(image@, source.seed).pixels);
    assert forall|x: u32, y: u32| x < image@.width && y < image@.height implies #[trigger] threshold_for(
        source.seed,
        x,
        y,
    ) < THRESHOLD_BOUND by {
        lemma_cell_position(image@, x as int, y as int);
        let i = image@.index_of(x as int, y as int);
        assert(threshold_for(source.seed, image@.column_of(i) as u32, image@.row_of(i) as u32)
            < THRESHOLD_BOUND);
    }
    out
}

/// Every cell under every seed has a key of its own: equal keys mean the same
/// seed, the same column and the same row.
pub proof fn keys_are_distinct(seed1: u64, x1: u32, y1: u32, seed2: u64, x2: u32, y2: u32)
    requires
        draw_key(seed1, x1, y1) == draw_key(seed2, x2, y2),
    ensures
        seed1 == seed2,
        x1 == x2,
        y1 == y2,
{
    lemma_auto_spec_u64_to_from_le_bytes();
    lemma_auto_spec_u32_to_from_le_bytes();
    let k1 = draw_key(seed1, x1, y1);
    let k2 = draw_key(seed2, x2, y2);
    assert(k1.subrange(0, 8) =~= spec_u64_to_le_bytes(seed1));
    assert(k2.subrange(0, 8) =~= spec_u64_to_le_bytes(seed2));
    assert(k1.subrange(8, 12) =~= spec_u32_to_le_bytes(x1));
    assert(k2.subrange(8, 12) =~= spec_u32_to_le_bytes(x2));
    assert(k1.subrange(12, 16) =~= spec_u32_to_le_bytes(y1));
    assert(k2.subrange(12, 16) =~= spec_u32_to_le_bytes(y2));
    assert(spec_u64_from_le_bytes(spec_u64_to_le_bytes(seed1)) == seed1);
    assert(spec_u64_from_le_bytes(spec_u64_to_le_bytes(seed2)) == seed2);
    assert(spec_u32_from_le_bytes(spec_u32_to_le_bytes(x1)) == x1);
    assert(spec_u32_from_le_bytes(spec_u32_to_le_bytes(x2)) == x2);
    assert(spec_u32_from_le_bytes(spec_u32_to_le_bytes(y1)) == y1);
    assert(spec_u32_from_le_bytes(spec_u32_to_le_bytes(y2)) == y2);
}

/// The colour that dithering gives a cell depends on the seed, on the cell's
/// coordinates and on the colour there, and on nothing else: two grids that
/// agree on a cell get the same colour there under the same seed, whatever
/// their other cells hold and in whatever order the cells are worked through.
pub proof fn dithering_is_pointwise(first: Grid, second: Grid, seed: u64, x: int, y: int)
    requires
        first.wf(),
        second.wf(),
        0 <= x < first.width,
        0 <= x < second.width,
        0 <= y < first.height,
        0 <= y < second.height,
        first.at(x, y) == second.at(x, y),
    ensures
        dithered(first, seed).at(x, y) == dither_choice(
            first.at(x, y),
            threshold_for(seed, x as u32, y as u32) as int,
        ),
        dithered(first, seed).at(x, y) == dithered(second, seed).at(x, y),
{
    lemma_cell_position(first, x, y);
    lemma_cell_position(second, x, y);
}

/// Whatever is drawn, a colour of no luminance becomes black, and a colour of
/// full luminance becomes white under every threshold below the bound.
pub proof fn extremes_are_kept(c: Pixel, threshold: int)
    requires
        0 <= threshold < THRESHOLD_BOUND,
    ensures
        luminance_of(c) == 0 ==> dither_choice(c, threshold) == black(),
        luminance_of(c) == THRESHOLD_BOUND ==> dither_choice(c, threshold) == white(),
{
}

} // verus!
