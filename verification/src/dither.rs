//! The quantisation algorithms.
//!
//! Each takes a raster and a palette and returns the raster with the colour
//! of every pixel replaced by the device colour of a palette entry. The
//! alpha channel is never written.
use vstd::prelude::*;
use crate::color::{
    adds, enters, leaves, pixel_to_color, update_pixel_with_color, WorkingColor,
};
use crate::diffusion::{diffuse, lemma_single_pixel_sweep_is_threshold, swept};
use crate::distance::Difference;
use crate::kernel::{
    floyd_steinberg_kernel, floyd_steinberg_taps, lemma_floyd_steinberg_kernel,
    lemma_stucki_kernel, stucki_kernel, stucki_taps, FLOYD_STEINBERG_BASE, STUCKI_BASE,
};
use crate::palette::{lemma_nearest_is_member, nearest_of, Palette};
use crate::pixel::Pixel;
use crate::random::randomize;
use crate::raster::{lemma_position_in_area, lemma_put_changes_one, same_frame, Grid, Raster};

verus! {

/// The seed of the generator of the random algorithm.
pub const RANDOM_SEED: u64 = 0;

/// The radius of the perturbation of the random algorithm.
pub const RANDOM_RADIUS: u8 = 1;

/// The device colour of `chosen`, which the palette holds nearest to
/// `source`, the colour of `p` in the working space, is the colour of `q`.
pub open spec fn snapped_by<C: WorkingColor, D: Difference<C>>(
    palette: Seq<C>,
    p: Pixel,
    q: Pixel,
    source: C,
    chosen: C,
) -> bool {
    &&& enters(p.color(), source)
    &&& nearest_of::<C, D>(palette, source, chosen)
    &&& leaves(chosen, q.color())
    &&& q.alpha == p.alpha
}

/// `q` is `p` with its colour replaced by the device colour of the palette
/// entry nearest to it.
pub open spec fn snapped<C: WorkingColor, D: Difference<C>>(
    palette: Seq<C>,
    p: Pixel,
    q: Pixel,
) -> bool {
    exists|source: C, chosen: C| snapped_by::<C, D>(palette, p, q, source, chosen)
}

/// `noise` has returned `offset` for some state of the generator and the
/// radius of the random algorithm.
pub open spec fn drawn<C: WorkingColor>(offset: C) -> bool {
    exists|rng: &mut rand::rngs::SmallRng| call_ensures(C::noise, (rng, RANDOM_RADIUS), offset)
}

/// The steps by which `q` has come from `p` and `shaken` from its colour.
pub open spec fn shaken_by<C: WorkingColor, D: Difference<C>>(
    palette: Seq<C>,
    p: Pixel,
    q: Pixel,
    source: C,
    offset: C,
    shaken: C,
    chosen: C,
) -> bool {
    &&& enters(p.color(), source)
    &&& drawn(offset)
    &&& adds(source, offset, shaken)
    &&& nearest_of::<C, D>(palette, shaken, chosen)
    &&& leaves(chosen, q.color())
    &&& q.alpha == p.alpha
}

/// `q` is `p` with its colour replaced by the device colour of the palette
/// entry nearest to the sum of its colour and an offset that `noise` has
/// drawn.
pub open spec fn shaken<C: WorkingColor, D: Difference<C>>(
    palette: Seq<C>,
    p: Pixel,
    q: Pixel,
) -> bool {
    exists|source: C, offset: C, shaken: C, chosen: C|
        shaken_by::<C, D>(palette, p, q, source, offset, shaken, chosen)
}

/// The colour of `q` is the device colour of an entry of the palette.
pub open spec fn covered<C: WorkingColor>(palette: Seq<C>, q: Pixel) -> bool {
    exists|k: int| 0 <= k < palette.len() && leaves(#[trigger] palette[k], q.color())
}

/// `after` is `before` with the colour of every pixel replaced by the device
/// colour of an entry of the palette, and nothing else changed.
pub open spec fn reduced<C: WorkingColor>(before: Grid, after: Grid, palette: Seq<C>) -> bool {
    &&& same_frame(before, after)
    &&& forall|i: int|
        0 <= i < before.area() ==> (#[trigger] after.pixel(i)).alpha == before.pixel(i).alpha
            && covered(palette, after.pixel(i))
}

/// `after` is `before` with every pixel replaced, each by itself, by the
/// palette entry nearest to it.
pub open spec fn thresholded<C: WorkingColor, D: Difference<C>>(
    before: Grid,
    after: Grid,
    palette: Seq<C>,
) -> bool {
    &&& same_frame(before, after)
    &&& forall|i: int|
        0 <= i < before.area() ==> snapped::<C, D>(
            palette,
            before.pixel(i),
            #[trigger] after.pixel(i),
        )
}

/// `after` is `before` with every pixel replaced, each by itself, by the
/// palette entry nearest to its colour plus an offset that `noise` has drawn.
pub open spec fn randomized<C: WorkingColor, D: Difference<C>>(
    before: Grid,
    after: Grid,
    palette: Seq<C>,
) -> bool {
    &&& same_frame(before, after)
    &&& forall|i: int|
        0 <= i < before.area() ==> shaken::<C, D>(
            palette,
            before.pixel(i),
            #[trigger] after.pixel(i),
        )
}

/// A quantisation algorithm: a way to replace the colour of every pixel of
/// a raster by the device colour of a palette entry.
///
/// The palette may be empty only where the raster has no pixel.
pub trait Algorithm<C: WorkingColor, D: Difference<C>> {
    /// Quantises `image` to `palette`.
    fn run(image: Raster, palette: &Palette<C>) -> (out: Raster)
        requires
            image@.area() > 0 ==> palette@.len() > 0,
        ensures
            reduced(image@, out@, palette@),
            Self::outcome(image@, out@, palette@),
    ;

    /// What the algorithm makes of a raster, beyond what all of them do.
    spec fn outcome(before: Grid, after: Grid, palette: Seq<C>) -> bool;
}

/// Replaces each pixel, by itself, by the palette entry nearest to it.
pub struct AlgoThreshold;

/// Replaces each pixel by the palette entry nearest to it after each channel
/// was moved by a random offset between minus one and one. The generator
/// starts from the same seed in every run and is drawn from three times for
/// each pixel, pixel by pixel in raster order.
///
/// [`crate::random::randomize`] is the same run as a function of its own,
/// and says through which states the generator goes.
pub struct AlgoRandom;

/// Error diffusion with the kernel of Floyd and Steinberg.
pub struct AlgoFloydSteinberg;

/// Error diffusion with the kernel of Stucki.
pub struct AlgoStucki;

impl<C: WorkingColor, D: Difference<C>> Algorithm<C, D> for AlgoThreshold {
    open spec fn outcome(before: Grid, after: Grid, palette: Seq<C>) -> bool {
        thresholded::<C, D>(before, after, palette)
    }

    fn run(image: Raster, palette: &Palette<C>) -> (out: Raster) {
        let ghost start = image@;
        let mut image = image;
        let (width, height) = image.dimensions();
        let mut y: u32 = 0;
        while y < height
            invariant
                y <= height,
                width == start.width,
                height == start.height,
                start.wf(),
                image@.wf(),
                same_frame(start, image@),
                start.area() > 0 ==> palette@.len() > 0,
                forall|j: int|
                    0 <= j < start.position(0, y as int) ==> snapped::<C, D>(
                        palette@,
                        start.pixel(j),
                        #[trigger] image@.pixel(j),
                    ),
                forall|j: int|
                    start.position(0, y as int) <= j < start.area() ==> image@.pixel(j)
                        == start.pixel(j),
            decreases height - y,
        {
            let mut x: u32 = 0;
            while x < width
                invariant
                    x <= width,
                    y < height,
                    width == start.width,
                    height == start.height,
                    start.wf(),
                    image@.wf(),
                    same_frame(start, image@),
                    start.area() > 0 ==> palette@.len() > 0,
                    forall|j: int|
                        0 <= j < start.position(x as int, y as int) ==> snapped::<C, D>(
                            palette@,
                            start.pixel(j),
                            #[trigger] image@.pixel(j),
                        ),
                    forall|j: int|
                        start.position(x as int, y as int) <= j < start.area() ==> image@.pixel(j)
                            == start.pixel(j),
                decreases width - x,
            {
                let ghost before = image@;
                let ghost here = before.position(x as int, y as int);
                proof {
                    lemma_position_in_area(before, x as int, y as int);
                }
                let mut pixel = image.get_pixel(x, y);
                let ghost earlier = pixel;
                let source: C = pixel_to_color(pixel);
                let chosen = palette.nearest::<D>(source);
                update_pixel_with_color(&mut pixel, chosen);
                image.put_pixel(x, y, pixel);
                proof {
                    lemma_put_changes_one(before, here, pixel);
                    assert(snapped_by::<C, D>(palette@, earlier, pixel, source, chosen));
                }
                x += 1;
            }
            proof {
                assert(start.position(0, y + 1) == start.position(x as int, y as int))
                    by (nonlinear_arith)
                    requires
                        x == start.width,
                ;
            }
            y += 1;
        }
        proof {
            assert(start.position(0, y as int) == start.area()) by (nonlinear_arith)
                requires
                    y == start.height,
            ;
            lemma_thresholded_is_reduced::<C, D>(start, image@, palette@);
        }
        image
    }
}

impl<C: WorkingColor, D: Difference<C>> Algorithm<C, D> for AlgoRandom {
    open spec fn outcome(before: Grid, after: Grid, palette: Seq<C>) -> bool {
        randomized::<C, D>(before, after, palette)
    }

    fn run(image: Raster, palette: &Palette<C>) -> (out: Raster) {
        randomize::<C, D>(image, palette)
    }
}

impl<C: WorkingColor, D: Difference<C>> Algorithm<C, D> for AlgoFloydSteinberg {
    open spec fn outcome(before: Grid, after: Grid, palette: Seq<C>) -> bool {
        swept::<C, D>(
            palette,
            floyd_steinberg_kernel(),
            FLOYD_STEINBERG_BASE,
            before,
            after,
            0,
            before.height,
        )
    }

    fn run(image: Raster, palette: &Palette<C>) -> (out: Raster) {
        let taps = floyd_steinberg_taps();
        diffuse::<C, D>(image, palette, &taps, FLOYD_STEINBERG_BASE)
    }
}

impl<C: WorkingColor, D: Difference<C>> Algorithm<C, D> for AlgoStucki {
    open spec fn outcome(before: Grid, after: Grid, palette: Seq<C>) -> bool {
        swept::<C, D>(palette, stucki_kernel(), STUCKI_BASE, before, after, 0, before.height)
    }

    fn run(image: Raster, palette: &Palette<C>) -> (out: Raster) {
        let taps = stucki_taps();
        diffuse::<C, D>(image, palette, &taps, STUCKI_BASE)
    }
}

/// A pixel that was snapped to the palette holds the device colour of one of
/// its entries.
pub proof fn lemma_snapped_is_covered<C: WorkingColor, D: Difference<C>>(
    palette: Seq<C>,
    p: Pixel,
    q: Pixel,
)
    requires
        snapped::<C, D>(palette, p, q),
    ensures
        covered(palette, q),
        q.alpha == p.alpha,
{
    let (source, chosen) = choose|source: C, chosen: C|
        snapped_by::<C, D>(palette, p, q, source, chosen);
    lemma_nearest_is_member::<C, D>(palette, source, chosen);
    let k = choose|k: int| 0 <= k < palette.len() && chosen == palette[k];
    assert(leaves(palette[k], q.color()));
}

/// Thresholding puts the device colour of a palette entry in every pixel and
/// keeps every alpha channel.
pub proof fn lemma_thresholded_is_reduced<C: WorkingColor, D: Difference<C>>(
    before: Grid,
    after: Grid,
    palette: Seq<C>,
)
    requires
        thresholded::<C, D>(before, after, palette),
    ensures
        reduced(before, after, palette),
{
    assert forall|i: int| 0 <= i < before.area() implies (#[trigger] after.pixel(i)).alpha
        == before.pixel(i).alpha && covered(palette, after.pixel(i)) by {
        lemma_snapped_is_covered::<C, D>(palette, before.pixel(i), after.pixel(i));
    }
}

/// The random algorithm puts the device colour of a palette entry in every
/// pixel and keeps every alpha channel, whatever the generator gave.
pub proof fn lemma_randomized_is_reduced<C: WorkingColor, D: Difference<C>>(
    before: Grid,
    after: Grid,
    palette: Seq<C>,
)
    requires
        randomized::<C, D>(before, after, palette),
    ensures
        reduced(before, after, palette),
{
    assert forall|i: int| 0 <= i < before.area() implies (#[trigger] after.pixel(i)).alpha
        == before.pixel(i).alpha && covered(palette, after.pixel(i)) by {
        let p = before.pixel(i);
        let q = after.pixel(i);
        let (source, offset, moved, chosen) = choose|source: C, offset: C, moved: C, chosen: C|
            shaken_by::<C, D>(palette, p, q, source, offset, moved, chosen);
        lemma_nearest_is_member::<C, D>(palette, moved, chosen);
        let k = choose|k: int| 0 <= k < palette.len() && chosen == palette[k];
        assert(leaves(palette[k], q.color()));
    }
}

/// With a palette of one colour, thresholding puts the device colour of
/// that colour in every pixel, whatever the raster held.
pub proof fn lemma_single_color_threshold<C: WorkingColor, D: Difference<C>>(
    before: Grid,
    after: Grid,
    palette: Seq<C>,
)
    requires
        palette.len() == 1,
        thresholded::<C, D>(before, after, palette),
    ensures
        same_frame(before, after),
        forall|i: int|
            0 <= i < before.area() ==> leaves(palette[0], (#[trigger] after.pixel(i)).color())
                && after.pixel(i).alpha == before.pixel(i).alpha,
{
    assert forall|i: int| 0 <= i < before.area() implies leaves(
        palette[0],
        (#[trigger] after.pixel(i)).color(),
    ) && after.pixel(i).alpha == before.pixel(i).alpha by {
        let p = before.pixel(i);
        let q = after.pixel(i);
        let (source, chosen) = choose|source: C, chosen: C|
            snapped_by::<C, D>(palette, p, q, source, chosen);
        lemma_nearest_is_member::<C, D>(palette, source, chosen);
    }
}

/// On a raster of one pixel, the algorithm of Floyd and Steinberg and that of
/// Stucki do what thresholding does.
pub proof fn lemma_single_pixel_is_threshold<C: WorkingColor, D: Difference<C>>(
    before: Grid,
    after: Grid,
    palette: Seq<C>,
)
    requires
        before.width == 1,
        before.height == 1,
        <AlgoFloydSteinberg as Algorithm<C, D>>::outcome(before, after, palette) || <
            AlgoStucki as Algorithm<C, D>
        >::outcome(before, after, palette),
    ensures
        <AlgoThreshold as Algorithm<C, D>>::outcome(before, after, palette),
{
    lemma_floyd_steinberg_kernel();
    lemma_stucki_kernel();
    if <AlgoFloydSteinberg as Algorithm<C, D>>::outcome(before, after, palette) {
        lemma_single_pixel_sweep_is_threshold::<C, D>(
            palette,
            floyd_steinberg_kernel(),
            FLOYD_STEINBERG_BASE,
            before,
            after,
        );
    } else {
        lemma_single_pixel_sweep_is_threshold::<C, D>(
            palette,
            stucki_kernel(),
            STUCKI_BASE,
            before,
            after,
        );
    }
}

} // verus!
