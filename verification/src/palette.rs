use vstd::prelude::*;
use crate::pixel::Pixel;
use crate::raster::{dimensions, duplicate, lemma_cell_position, pixel_at, set_pixel, Grid, Image};

verus! {

/// Why a palette could not be applied.
#[derive(Clone, Copy, Debug, PartialEq, Eq, Structural)]
pub enum PaletteError {
    /// The palette holds no colour to choose from.
    EmptyPalette,
}

/// The square of the Euclidean distance between two colours in RGB space. A
/// colour is nearer than another exactly when its squared distance is
/// smaller, so the nearest colour is found without taking any root.
pub open spec fn distance_squared(a: Pixel, b: Pixel) -> int {
    (a.r - b.r) * (a.r - b.r) + (a.g - b.g) * (a.g - b.g) + (a.b - b.b) * (a.b - b.b)
}

/// `k` is the position of the palette entry nearest to `c`: no entry is
/// nearer, and every entry before it is farther away.
pub open spec fn is_nearest(palette: Seq<Pixel>, c: Pixel, k: int) -> bool {
    &&& 0 <= k < palette.len()
    &&& forall|j: int|
        0 <= j < palette.len() ==> distance_squared(c, palette[k]) <= distance_squared(
            c,
            #[trigger] palette[j],
        )
    &&& forall|j: int|
        0 <= j < k ==> distance_squared(c, palette[k]) < distance_squared(c, #[trigger] palette[j])
}

/// The position of the palette entry nearest to `c`, the earliest one among
/// equally near entries. It is meaningful for a palette that is not empty.
pub open spec fn nearest_index(palette: Seq<Pixel>, c: Pixel) -> int {
    choose|k: int| is_nearest(palette, c, k)
}

/// The palette entry nearest to `c`.
pub open spec fn nearest_color(palette: Seq<Pixel>, c: Pixel) -> Pixel {
    palette[nearest_index(palette, c)]
}

/// The grid in which every cell of `grid` holds the palette entry nearest to
/// the colour it held.
pub open spec fn quantized(grid: Grid, palette: Seq<Pixel>) -> Grid {
    grid.map_cells(|x: int, y: int, c: Pixel| nearest_color(palette, c))
}

/// At most one position is the nearest.
pub proof fn lemma_nearest_is_unique(palette: Seq<Pixel>, c: Pixel, k1: int, k2: int)
    requires
        is_nearest(palette, c, k1),
        is_nearest(palette, c, k2),
    ensures
        k1 == k2,
{
    if k1 < k2 {
        assert(distance_squared(c, palette[k2]) < distance_squared(c, palette[k1]));
        assert(distance_squared(c, palette[k1]) <= distance_squared(c, palette[k2]));
    } else if k2 < k1 {
        assert(distance_squared(c, palette[k1]) < distance_squared(c, palette[k2]));
        assert(distance_squared(c, palette[k2]) <= distance_squared(c, palette[k1]));
    }
}

/// Among the first `n` entries of a palette one is the nearest to `c`.
proof fn nearest_among_first(palette: Seq<Pixel>, c: Pixel, n: int) -> (k: int)
    requires
        0 < n <= palette.len(),
    ensures
        is_nearest(palette.take(n), c, k),
    decreases n,
{
    if n == 1 {
        0
    } else {
        let earlier = nearest_among_first(palette, c, n - 1);
        let k = if distance_squared(c, palette[n - 1]) < distance_squared(c, palette[earlier]) {
            n - 1
        } else {
            earlier
        };
        assert forall|j: int| 0 <= j < n implies distance_squared(c, palette.take(n)[k])
            <= distance_squared(c, #[trigger] palette.take(n)[j]) by {
            if j < n - 1 {
                assert(palette.take(n - 1)[j] == palette[j]);
            }
        }
        assert forall|j: int| 0 <= j < k implies distance_squared(c, palette.take(n)[k])
            < distance_squared(c, #[trigger] palette.take(n)[j]) by {
            assert(palette.take(n - 1)[j] == palette[j]);
        }
        k
    }
}

/// A palette that is not empty has a nearest entry for every colour, and
/// `nearest_index` is its position.
pub proof fn lemma_nearest_exists(palette: Seq<Pixel>, c: Pixel)
    requires
        palette.len() > 0,
    ensures
        is_nearest(palette, c, nearest_index(palette, c)),
{
    let k = nearest_among_first(palette, c, palette.len() as int);
    assert(palette.take(palette.len() as int) =~= palette);
    assert(is_nearest(palette, c, k));
}

/// Two colours at distance zero are the same colour.
pub proof fn lemma_distance_zero(a: Pixel, b: Pixel)
    ensures
        distance_squared(a, b) == 0 <==> a == b,
        distance_squared(a, b) >= 0,
{
    let dr = a.r - b.r;
    let dg = a.g - b.g;
    let db = a.b - b.b;
    assert(dr * dr >= 0 && (dr * dr == 0 <==> dr == 0)) by (nonlinear_arith);
    assert(dg * dg >= 0 && (dg * dg == 0 <==> dg == 0)) by (nonlinear_arith);
    assert(db * db >= 0 && (db * db == 0 <==> db == 0)) by (nonlinear_arith);
}

/// A colour that the palette holds is its own nearest entry.
pub proof fn palette_color_is_kept(palette: Seq<Pixel>, c: Pixel)
    requires
        palette.contains(c),
    ensures
        nearest_color(palette, c) == c,
{
    let at = choose|i: int| 0 <= i < palette.len() && palette[i] == c;
    lemma_nearest_exists(palette, c);
    let k = nearest_index(palette, c);
    lemma_distance_zero(c, palette[at]);
    lemma_distance_zero(c, palette[k]);
    assert(distance_squared(c, palette[k]) <= distance_squared(c, palette[at]));
}

/// Quantization leaves every cell as it is whose colour the palette holds.
pub proof fn quantized_keeps_palette_colors(grid: Grid, palette: Seq<Pixel>, i: int)
    requires
        0 <= i < grid.pixels.len(),
        palette.contains(grid.pixels[i]),
    ensures
        quantized(grid, palette).pixels[i] == grid.pixels[i],
{
    palette_color_is_kept(palette, grid.pixels[i]);
}

/// Of two entries at the same distance from `c` the later one is never
/// chosen: among equally near entries the earliest wins.
pub proof fn earlier_entry_wins_tie(palette: Seq<Pixel>, c: Pixel, i: int, j: int)
    requires
        0 <= i < j < palette.len(),
        distance_squared(c, palette[i]) == distance_squared(c, palette[j]),
    ensures
        nearest_index(palette, c) != j,
{
    lemma_nearest_exists(palette, c);
    if nearest_index(palette, c) == j {
        assert(distance_squared(c, palette[j]) < distance_squared(c, palette[i]));
    }
}

/// The absolute difference of two channels.
fn channel_gap(a: u8, b: u8) -> (gap: u32)
    ensures
        gap == if a >= b {
            a - b
        } else {
            b - a
        },
        gap <= 255,
{
    if a >= b {
        (a - b) as u32
    } else {
        (b - a) as u32
    }
}

/// Computes the squared Euclidean distance between two colours.
pub fn color_distance_squared(c1: &Pixel, c2: &Pixel) -> (d: u32)
    ensures
        d == distance_squared(*c1, *c2),
        d <= 3 * 255 * 255,
{
    let dr: u32 = channel_gap(c1.r, c2.r);
    let dg: u32 = channel_gap(c1.g, c2.g);
    let db: u32 = channel_gap(c1.b, c2.b);
    assert(dr * dr <= 255 * 255 && dr * dr == (c1.r - c2.r) * (c1.r - c2.r)) by (nonlinear_arith)
        requires
            dr <= 255,
            dr == c1.r - c2.r || dr == c2.r - c1.r,
    ;
    assert(dg * dg <= 255 * 255 && dg * dg == (c1.g - c2.g) * (c1.g - c2.g)) by (nonlinear_arith)
        requires
            dg <= 255,
            dg == c1.g - c2.g || dg == c2.g - c1.g,
    ;
    assert(db * db <= 255 * 255 && db * db == (c1.b - c2.b) * (c1.b - c2.b)) by (nonlinear_arith)
        requires
            db <= 255,
            db == c1.b - c2.b || db == c2.b - c1.b,
    ;
    dr * dr + dg * dg + db * db
}

/// Finds the palette entry nearest to `pixel`, the earliest one among equally
/// near entries, and returns its position.
pub fn closest_index(pixel: &Pixel, palette: &Vec<Pixel>) -> (k: usize)
    requires
        palette@.len() > 0,
    ensures
        is_nearest(palette@, *pixel, k as int),
        k == nearest_index(palette@, *pixel),
{
    let mut best: usize = 0;
    let mut best_distance: u32 = color_distance_squared(pixel, &palette[0]);
    let mut i: usize = 1;
    while i < palette.len()
        invariant
            1 <= i <= palette@.len(),
            best < i,
            best_distance == distance_squared(*pixel, palette@[best as int]),
            forall|j: int|
                0 <= j < i ==> best_distance <= distance_squared(*pixel, #[trigger] palette@[j]),
            forall|j: int|
                0 <= j < best ==> best_distance < distance_squared(*pixel, #[trigger] palette@[j]),
        decreases palette@.len() - i,
    {
        let distance: u32 = color_distance_squared(pixel, &palette[i]);
        if distance < best_distance {
            best = i;
            best_distance = distance;
        }
        i += 1;
    }
    proof {
        assert(is_nearest(palette@, *pixel, best as int));
        lemma_nearest_is_unique(
            palette@,
            *pixel,
            best as int,
            nearest_index(palette@, *pixel),
        );
    }
    best
}

/// Palette quantization: every pixel is replaced by the palette entry nearest
/// to it in RGB space, the earliest one among equally near entries. An empty
/// palette is refused. The input is left as it is and the result has its
/// dimensions.
pub fn apply_palette(image: &Image, palette: Vec<Pixel>) -> (result: Result<Image, PaletteError>)
    ensures
        result.is_err() == (palette@.len() == 0),
        result matches Err(e) ==> e == PaletteError::EmptyPalette,
        result matches Ok(out) ==> out@.width == image@.width && out@.height == image@.height
            && out@ == quantized(image@, palette@) && out@.wf(),
{
    if palette.len() == 0 {
        return Err(PaletteError::EmptyPalette);
    }
    let (width, height) = dimensions(image);
    let mut out = duplicate(image);
    let mut y: u32 = 0;
    while y < height
        invariant
            y <= height,
            palette@.len() > 0,
            image@.wf(),
            image@.width == width,
            image@.height == height,
            out@.agrees_up_to(quantized(image@, palette@), y * width),
        decreases height - y,
    {
        let mut x: u32 = 0;
        while x < width
            invariant
                x <= width,
                y < height,
                palette@.len() > 0,
                image@.wf(),
                image@.width == width,
                image@.height == height,
                out@.agrees_up_to(quantized(image@, palette@), y * width + x),
            decreases width - x,
        {
            proof {
                lemma_cell_position(image@, x as int, y as int);
            }
            let pixel = pixel_at(image, x, y);
            let k = closest_index(&pixel, &palette);
            set_pixel(&mut out, x, y, palette[k]);
            x += 1;
        }
        assert((y + 1) * width == y * width + width) by (nonlinear_arith);
        y += 1;
    }
    assert(out@.pixels =~= quantized(image@, palette@).pixels);
    Ok(out)
}

} // verus!
