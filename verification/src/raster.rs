//! The raster that the algorithms work on: an RGBA image buffer of the
//! `image` crate, seen through its dimensions and its samples.
use vstd::prelude::*;
use crate::pixel::Pixel;

verus! {

/// A mutable grid of pixels, `width` by `height`, held by an
/// `image::RgbaImage`.
#[verifier::external_body]
pub struct Raster {
    inner: image::RgbaImage,
}

/// The number of pixels in a row of the image buffer.
pub uninterp spec fn raster_width(raster: Raster) -> nat;

/// The number of rows of the image buffer.
pub uninterp spec fn raster_height(raster: Raster) -> nat;

/// The samples in the container of the image buffer: four to a pixel, in the
/// order red, green, blue, alpha, the pixels row by row from the top left.
pub uninterp spec fn raster_samples(raster: Raster) -> Seq<u8>;

/// What a raster is to the contracts: its dimensions and its samples.
pub struct Grid {
    pub width: nat,
    pub height: nat,
    pub samples: Seq<u8>,
}

impl Grid {
    /// The samples hold every pixel of the grid.
    pub open spec fn wf(self) -> bool {
        4 * (self.width * self.height) <= self.samples.len()
    }

    /// The number of pixels.
    pub open spec fn area(self) -> nat {
        self.width * self.height
    }

    /// Whether column `x` of row `y` lies in the grid.
    pub open spec fn holds(self, x: int, y: int) -> bool {
        0 <= x < self.width && 0 <= y < self.height
    }

    /// The place of column `x` of row `y` in raster order.
    pub open spec fn position(self, x: int, y: int) -> int {
        y * self.width + x
    }

    /// The pixel at place `i` in raster order.
    pub open spec fn pixel(self, i: int) -> Pixel {
        Pixel {
            red: self.samples[4 * i],
            green: self.samples[4 * i + 1],
            blue: self.samples[4 * i + 2],
            alpha: self.samples[4 * i + 3],
        }
    }

    /// The pixel at column `x` of row `y`.
    pub open spec fn at(self, x: int, y: int) -> Pixel {
        self.pixel(self.position(x, y))
    }

    /// The grid with the pixel at place `i` replaced.
    pub open spec fn with_pixel(self, i: int, pixel: Pixel) -> Grid {
        Grid {
            samples: self.samples.update(4 * i, pixel.red).update(4 * i + 1, pixel.green).update(
                4 * i + 2,
                pixel.blue,
            ).update(4 * i + 3, pixel.alpha),
            ..self
        }
    }
}

/// A place inside the grid is below its area.
pub proof fn lemma_position_in_area(grid: Grid, x: int, y: int)
    requires
        grid.holds(x, y),
    ensures
        0 <= grid.position(x, y) < grid.area(),
{
    assert(y * grid.width + x < (y + 1) * grid.width) by (nonlinear_arith)
        requires
            x < grid.width,
    ;
    assert((y + 1) * grid.width <= grid.height * grid.width) by (nonlinear_arith)
        requires
            y + 1 <= grid.height,
            0 <= grid.width,
    ;
    assert(0 <= y * grid.width) by (nonlinear_arith)
        requires
            0 <= y,
            0 <= grid.width,
    ;
    assert(grid.height * grid.width == grid.width * grid.height) by (nonlinear_arith);
}

/// Replacing one pixel changes that pixel and no other.
pub proof fn lemma_with_pixel(grid: Grid, i: int, pixel: Pixel, j: int)
    requires
        grid.wf(),
        0 <= i < grid.area(),
        0 <= j < grid.area(),
    ensures
        grid.with_pixel(i, pixel).wf(),
        grid.with_pixel(i, pixel).pixel(j) == if j == i {
            pixel
        } else {
            grid.pixel(j)
        },
{
}

/// `after` has the dimensions of `before` and as many samples, and the
/// samples behind the last pixel are the same.
pub open spec fn same_frame(before: Grid, after: Grid) -> bool {
    &&& after.width == before.width
    &&& after.height == before.height
    &&& after.samples.len() == before.samples.len()
    &&& forall|s: int|
        4 * before.area() <= s < before.samples.len() ==> after.samples[s] == before.samples[s]
}

/// `after` is `before` but, at most, for the pixel at place `i`.
pub open spec fn only_changed(before: Grid, after: Grid, i: int) -> bool {
    &&& same_frame(before, after)
    &&& forall|j: int| 0 <= j < before.area() && j != i ==> after.pixel(j) == before.pixel(j)
}

/// Overwriting a pixel inside the grid changes that pixel and nothing else.
pub proof fn lemma_put_changes_one(grid: Grid, i: int, pixel: Pixel)
    requires
        grid.wf(),
        0 <= i < grid.area(),
    ensures
        grid.with_pixel(i, pixel).wf(),
        grid.with_pixel(i, pixel).pixel(i) == pixel,
        only_changed(grid, grid.with_pixel(i, pixel), i),
{
    lemma_with_pixel(grid, i, pixel, i);
    assert forall|j: int| 0 <= j < grid.area() && j != i implies grid.with_pixel(i, pixel).pixel(j)
        == grid.pixel(j) by {
        lemma_with_pixel(grid, i, pixel, j);
    }
}

impl View for Raster {
    type V = Grid;

    open spec fn view(&self) -> Grid {
        Grid {
            width: raster_width(*self),
            height: raster_height(*self),
            samples: raster_samples(*self),
        }
    }
}

/// `ImageBuffer::from_raw`: the buffer is made exactly when the samples of
/// one row can be counted in a `usize` and the container holds at least four
/// samples for each of `width * height` pixels, and it then has these
/// dimensions and this container.
#[verifier::external_body]
fn buffer_from_raw(width: u32, height: u32, samples: Vec<u8>) -> (made: Option<Raster>)
    ensures
        made is Some <==> (4 * width <= usize::MAX && 4 * (width * height) <= samples@.len()),
        made matches Some(raster) ==> raster_width(raster) == width && raster_height(raster)
            == height && raster_samples(raster) == samples@,
{
    match image::RgbaImage::from_raw(width, height, samples) {
        Some(inner) => Some(Raster { inner }),
        None => None,
    }
}

/// `ImageBuffer::into_raw`: hands out the container.
#[verifier::external_body]
fn buffer_into_raw(raster: Raster) -> (samples: Vec<u8>)
    ensures
        samples@ == raster_samples(raster),
{
    raster.inner.into_raw()
}

/// `ImageBuffer::dimensions`: the width and the height; the container of an
/// image buffer holds every pixel within them.
#[verifier::external_body]
fn buffer_dimensions(raster: &Raster) -> (size: (u32, u32))
    ensures
        size.0 == raster_width(*raster),
        size.1 == raster_height(*raster),
        4 * (size.0 * size.1) <= raster_samples(*raster).len(),
{
    raster.inner.dimensions()
}

/// `ImageBuffer::get_pixel`, which panics outside the dimensions: the four
/// samples at the pixel's place.
#[verifier::external_body]
fn buffer_get_pixel(raster: &Raster, x: u32, y: u32) -> (pixel: Pixel)
    requires
        raster@.holds(x as int, y as int),
    ensures
        pixel == raster@.at(x as int, y as int),
{
    let image::Rgba([red, green, blue, alpha]) = *raster.inner.get_pixel(x, y);
    Pixel { red, green, blue, alpha }
}

/// `ImageBuffer::put_pixel`, which panics outside the dimensions: overwrites
/// the four samples at the pixel's place and nothing else.
#[verifier::external_body]
fn buffer_put_pixel(raster: &mut Raster, x: u32, y: u32, pixel: Pixel)
    requires
        old(raster)@.holds(x as int, y as int),
    ensures
        final(raster)@ == old(raster)@.with_pixel(old(raster)@.position(x as int, y as int), pixel),
{
    let Pixel { red, green, blue, alpha } = pixel;
    raster.inner.put_pixel(x, y, image::Rgba([red, green, blue, alpha]));
}

impl Raster {
    /// Makes a raster of `width` by `height` pixels from its samples, four to
    /// a pixel. There is none when the samples are too few, nor when a row
    /// has more samples than a `usize` can count.
    pub fn from_raw(width: u32, height: u32, samples: Vec<u8>) -> (made: Option<Raster>)
        ensures
            made is Some <==> (4 * width <= usize::MAX && 4 * (width * height) <= samples@.len()),
            made matches Some(raster) ==> raster@.wf() && raster@ == (Grid {
                width: width as nat,
                height: height as nat,
                samples: samples@,
            }),
    {
        buffer_from_raw(width, height, samples)
    }

    /// Gives the samples back.
    pub fn into_raw(self) -> (samples: Vec<u8>)
        ensures
            samples@ == self@.samples,
    {
        buffer_into_raw(self)
    }

    /// The width and the height in pixels.
    pub fn dimensions(&self) -> (size: (u32, u32))
        ensures
            size.0 == self@.width,
            size.1 == self@.height,
            self@.wf(),
    {
        buffer_dimensions(self)
    }

    /// The number of pixels in a row.
    pub fn width(&self) -> (width: u32)
        ensures
            width == self@.width,
            self@.wf(),
    {
        buffer_dimensions(self).0
    }

    /// The number of rows.
    pub fn height(&self) -> (height: u32)
        ensures
            height == self@.height,
            self@.wf(),
    {
        buffer_dimensions(self).1
    }

    /// The pixel at column `x` of row `y`.
    pub fn get_pixel(&self, x: u32, y: u32) -> (pixel: Pixel)
        requires
            self@.holds(x as int, y as int),
        ensures
            pixel == self@.at(x as int, y as int),
    {
        buffer_get_pixel(self, x, y)
    }

    /// The pixel at column `x` of row `y`, if the raster has one there.
    pub fn get_pixel_checked(&self, x: u32, y: u32) -> (found: Option<Pixel>)
        ensures
            found == if self@.holds(x as int, y as int) {
                Some(self@.at(x as int, y as int))
            } else {
                None
            },
    {
        let (width, height) = buffer_dimensions(self);
        if x < width && y < height {
            Some(buffer_get_pixel(self, x, y))
        } else {
            None
        }
    }

    /// Overwrites the pixel at column `x` of row `y`.
    pub fn put_pixel(&mut self, x: u32, y: u32, pixel: Pixel)
        requires
            old(self)@.holds(x as int, y as int),
        ensures
            final(self)@ == old(self)@.with_pixel(old(self)@.position(x as int, y as int), pixel),
    {
        buffer_put_pixel(self, x, y, pixel)
    }
}

} // verus!
