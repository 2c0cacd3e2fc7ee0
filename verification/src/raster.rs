use vstd::prelude::*;
use vstd::arithmetic::div_mod::lemma_fundamental_div_mod_converse;
use crate::pixel::Pixel;

verus! {

/// A rectangular grid of colours with a fixed width and height, kept in an
/// `image::RgbImage`. Verus does not look inside: what it knows of an image
/// is its view, a `Grid`.
#[verifier::external_body]
#[derive(Debug)]
pub struct Image {
    buffer: image::RgbImage,
}

/// Number of columns of an image.
pub uninterp spec fn grid_width(image: Image) -> nat;

/// Number of rows of an image.
pub uninterp spec fn grid_height(image: Image) -> nat;

/// The colours of an image, row after row from the top, each row from the left.
pub uninterp spec fn grid_pixels(image: Image) -> Seq<Pixel>;

/// The mathematical content of an image: its dimensions and its colours in
/// row-major order, so that the colour at column `x` of row `y` stands at
/// `y * width + x`.
pub struct Grid {
    pub width: nat,
    pub height: nat,
    pub pixels: Seq<Pixel>,
}

impl Grid {
    /// There is exactly one colour for each cell: `height` rows of `width`
    /// colours.
    pub open spec fn wf(self) -> bool {
        self.pixels.len() == self.height * self.width
    }

    /// Position of column `x`, row `y` in `pixels`.
    pub open spec fn index_of(self, x: int, y: int) -> int {
        y * self.width + x
    }

    /// The colour at column `x` of row `y`.
    pub open spec fn at(self, x: int, y: int) -> Pixel
        recommends
            0 <= x < self.width,
            0 <= y < self.height,
    {
        self.pixels[self.index_of(x, y)]
    }

    /// The column of the cell at position `i` of `pixels`.
    pub open spec fn column_of(self, i: int) -> int {
        i % (self.width as int)
    }

    /// The row of the cell at position `i` of `pixels`.
    pub open spec fn row_of(self, i: int) -> int {
        i / (self.width as int)
    }

    /// This grid has the dimensions of `target` and holds the colours of
    /// `target` at the first `done` positions. With every position done the
    /// two are equal.
    pub open spec fn agrees_up_to(self, target: Grid, done: int) -> bool {
        &&& self.width == target.width
        &&& self.height == target.height
        &&& self.pixels.len() == target.pixels.len()
        &&& forall|i: int| 0 <= i < done ==> self.pixels[i] == target.pixels[i]
    }

    /// The grid of the same dimensions in which the cell at column `x` of row
    /// `y`, holding `c`, holds `f(x, y, c)`.
    pub open spec fn map_cells(self, f: spec_fn(int, int, Pixel) -> Pixel) -> Grid {
        Grid {
            width: self.width,
            height: self.height,
            pixels: Seq::new(
                self.pixels.len(),
                |i: int| f(self.column_of(i), self.row_of(i), self.pixels[i]),
            ),
        }
    }
}

impl View for Image {
    type V = Grid;

    open spec fn view(&self) -> Grid {
        Grid { width: grid_width(*self), height: grid_height(*self), pixels: grid_pixels(*self) }
    }
}

/// The first `count` colours that a sequence of samples spells out, three
/// samples to a colour: red, green, blue.
pub open spec fn pixels_of(samples: Seq<u8>, count: nat) -> Seq<Pixel> {
    Seq::new(
        count,
        |i: int| Pixel { r: samples[3 * i], g: samples[3 * i + 1], b: samples[3 * i + 2] },
    )
}

/// Whether `available` samples are enough for an image of the given
/// dimensions, three to a pixel, and their number can be computed in a `usize`
/// by multiplying three by the width and then by the height.
pub open spec fn samples_suffice(width: u32, height: u32, available: nat) -> bool {
    3 * width <= usize::MAX && 3 * width * height <= available
}

/// Cells and positions correspond: a cell inside the grid has a position
/// inside `pixels`, from which its column and row are found again.
pub proof fn lemma_cell_position(grid: Grid, x: int, y: int)
    requires
        0 <= x < grid.width,
        0 <= y < grid.height,
    ensures
        0 <= grid.index_of(x, y) < grid.height * grid.width,
        grid.column_of(grid.index_of(x, y)) == x,
        grid.row_of(grid.index_of(x, y)) == y,
{
    let w = grid.width as int;
    let h = grid.height as int;
    assert(0 <= y * w && y * w + w <= h * w) by (nonlinear_arith)
        requires
            0 <= y < h,
            0 < w,
    ;
    lemma_fundamental_div_mod_converse(y * w + x, w, y, x);
}

/// `ImageBuffer::from_raw`: makes an image of the given dimensions over
/// `samples`, three to a pixel in row-major order, if there are enough of
/// them and their number can be computed in a `usize`.
#[verifier::external_body]
fn buffer_from_raw(width: u32, height: u32, samples: Vec<u8>) -> (made: Option<Image>)
    ensures
        made.is_some() == samples_suffice(width, height, samples@.len()),
        made matches Some(image) ==> grid_width(image) == width && grid_height(image) == height
            && grid_pixels(image) == pixels_of(samples@, (height * width) as nat),
{
    image::RgbImage::from_raw(width, height, samples).map(|buffer| Image { buffer })
}

/// `ImageBuffer::into_raw`: hands out the samples the image is stored in.
/// They begin with those of its pixels, three to a pixel in row-major order.
#[verifier::external_body]
fn buffer_into_raw(image: Image) -> (samples: Vec<u8>)
    ensures
        samples@.len() >= 3 * (grid_height(image) * grid_width(image)),
        pixels_of(samples@, grid_height(image) * grid_width(image)) == grid_pixels(image),
{
    image.buffer.into_raw()
}

/// `ImageBuffer::dimensions`: the width and the height the buffer was made
/// with. The image has exactly width times height pixels.
#[verifier::external_body]
pub(crate) fn dimensions(image: &Image) -> (d: (u32, u32))
    ensures
        d.0 == grid_width(*image),
        d.1 == grid_height(*image),
        grid_pixels(*image).len() == d.1 * d.0,
{
    image.buffer.dimensions()
}

/// `ImageBuffer::get_pixel`: the colour stored at column `x` of row `y`. The
/// outside function panics outside the bounds, which `requires` leaves out.
#[verifier::external_body]
pub(crate) fn pixel_at(image: &Image, x: u32, y: u32) -> (c: Pixel)
    requires
        x < grid_width(*image),
        y < grid_height(*image),
    ensures
        c == grid_pixels(*image)[y * grid_width(*image) + x],
{
    let p = image.buffer.get_pixel(x, y);
    Pixel { r: p.0[0], g: p.0[1], b: p.0[2] }
}

/// `ImageBuffer::put_pixel`: stores `color` at column `x` of row `y` and
/// leaves the dimensions and every other pixel as they were. The outside
/// function panics outside the bounds, which `requires` leaves out.
#[verifier::external_body]
pub(crate) fn set_pixel(image: &mut Image, x: u32, y: u32, color: Pixel)
    requires
        x < grid_width(*old(image)),
        y < grid_height(*old(image)),
    ensures
        grid_width(*final(image)) == grid_width(*old(image)),
        grid_height(*final(image)) == grid_height(*old(image)),
        grid_pixels(*final(image)) == grid_pixels(*old(image)).update(
            y * grid_width(*old(image)) + x,
            color,
        ),
{
    image.buffer.put_pixel(x, y, image::Rgb([color.r, color.g, color.b]));
}

/// `Clone::clone` of an `ImageBuffer`: a fresh buffer with the same dimensions
/// and the same pixels.
#[verifier::external_body]
pub(crate) fn duplicate(image: &Image) -> (copy: Image)
    ensures
        grid_width(copy) == grid_width(*image),
        grid_height(copy) == grid_height(*image),
        grid_pixels(copy) == grid_pixels(*image),
{
    Image { buffer: image.buffer.clone() }
}

impl Clone for Image {
    /// A fresh image with the same dimensions and the same colours.
    fn clone(&self) -> (copy: Image)
        ensures
            copy@ == self@,
    {
        duplicate(self)
    }
}

impl Image {
    /// Makes an image of `width` columns and `height` rows from samples in
    /// row-major order, three to a pixel: red, green, blue. There must be at
    /// least `3 * width * height` of them; samples beyond that are ignored.
    pub fn from_raw(width: u32, height: u32, samples: Vec<u8>) -> (made: Option<Image>)
        ensures
            made.is_some() == samples_suffice(width, height, samples@.len()),
            made matches Some(image) ==> image@.wf() && image@.width == width && image@.height
                == height && image@.pixels == pixels_of(samples@, (height * width) as nat),
    {
        buffer_from_raw(width, height, samples)
    }

    /// Hands out the samples of the image in row-major order, three to a
    /// pixel: red, green, blue.
    pub fn into_raw(self) -> (samples: Vec<u8>)
        ensures
            samples@.len() >= 3 * (self@.height * self@.width),
            pixels_of(samples@, self@.height * self@.width) == self@.pixels,
    {
        buffer_into_raw(self)
    }

    /// The number of columns.
    pub fn width(&self) -> (w: u32)
        ensures
            w == self@.width,
            self@.wf(),
    {
        dimensions(self).0
    }

    /// The number of rows.
    pub fn height(&self) -> (h: u32)
        ensures
            h == self@.height,
            self@.wf(),
    {
        dimensions(self).1
    }

    /// The colour at column `x` of row `y`, if the image has such a cell.
    pub fn get_pixel(&self, x: u32, y: u32) -> (found: Option<Pixel>)
        ensures
            found == if x < self@.width && y < self@.height {
                Some(self@.at(x as int, y as int))
            } else {
                None
            },
    {
        let (w, h) = dimensions(self);
        if x < w && y < h {
            Some(pixel_at(self, x, y))
        } else {
            None
        }
    }
}

} // verus!
