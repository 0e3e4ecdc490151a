//! Black and white: every pixel of a raster turned into a grey.
use vstd::prelude::*;
use vstd::std_specs::convert::FromSpecImpl;
use crate::pixel::{Pixel, Rgb};
use crate::raster::{lemma_position_in_area, lemma_put_changes_one, same_frame, Grid, Raster};

verus! {

/// How a pixel is turned into a grey.
#[derive(Clone, Copy, Debug, PartialEq, Eq, Structural)]
pub enum Method {
    /// The mean of the three channels of standard RGB.
    SrgbAverage,
    /// The mean of the three channels of linear RGB.
    LinSrgbAverage,
    /// HSL with the saturation set to zero.
    Hsl,
    /// HSV with the saturation set to zero.
    Hsv,
    /// CIE L\*a\*b\* with the lightness kept and the chroma channels set to zero.
    Cielab,
    /// Oklab with the lightness kept and the chroma channels set to zero.
    Oklab,
}

/// The methods as they are named where a run is configured.
#[derive(Clone, Copy, Debug, PartialEq, Eq, Structural)]
pub enum BwMethod {
    SrgbAverage,
    LinSrgbAverage,
    Hsl,
    Hsv,
    Cielab,
    Oklab,
}

impl BwMethod {
    /// The method that goes by this name.
    pub open spec fn method(self) -> Method {
        match self {
            BwMethod::SrgbAverage => Method::SrgbAverage,
            BwMethod::LinSrgbAverage => Method::LinSrgbAverage,
            BwMethod::Hsl => Method::Hsl,
            BwMethod::Hsv => Method::Hsv,
            BwMethod::Cielab => Method::Cielab,
            BwMethod::Oklab => Method::Oklab,
        }
    }
}

impl From<BwMethod> for Method {
    fn from(value: BwMethod) -> (method: Self) {
        match value {
            BwMethod::SrgbAverage => Self::SrgbAverage,
            BwMethod::LinSrgbAverage => Self::LinSrgbAverage,
            BwMethod::Hsl => Self::Hsl,
            BwMethod::Hsv => Self::Hsv,
            BwMethod::Cielab => Self::Cielab,
            BwMethod::Oklab => Self::Oklab,
        }
    }
}

impl FromSpecImpl<BwMethod> for Method {
    open spec fn obeys_from_spec() -> bool {
        true
    }

    open spec fn from_spec(value: BwMethod) -> Method {
        value.method()
    }
}

/// The grey of a colour, worked out in floating point by the implementor.
pub trait Grayscale {
    /// The grey that `method` makes of `rgb`.
    fn to_bw(method: Method, rgb: Rgb) -> Rgb;
}

/// `to_bw` has returned the colour of `q` for the colour of `p`, and the
/// alpha channel is the same.
pub open spec fn grayed<G: Grayscale>(method: Method, p: Pixel, q: Pixel) -> bool {
    call_ensures(G::to_bw, (method, p.color()), q.color()) && q.alpha == p.alpha
}

/// `after` is `before` with every pixel turned, by itself, into a grey.
pub open spec fn desaturated<G: Grayscale>(method: Method, before: Grid, after: Grid) -> bool {
    &&& same_frame(before, after)
    &&& forall|i: int|
        0 <= i < before.area() ==> grayed::<G>(method, before.pixel(i), #[trigger] after.pixel(i))
}

/// Turns every pixel of the raster into a grey. The alpha channel is kept.
pub fn bw<G: Grayscale>(image: &mut Raster, method: Method)
    ensures
        desaturated::<G>(method, old(image)@, final(image)@),
{
    let ghost start = image@;
    let (width, height) = image.dimensions();
    let mut y: u32 = 0;
    while y < height
        invariant
            y <= height,
            width == start.width,
            height == start.height,
            start.wf(),
            image@.wf(),
            same_frame(start, image@),
            forall|j: int|
                0 <= j < start.position(0, y as int) ==> grayed::<G>(
                    method,
                    start.pixel(j),
                    #[trigger] image@.pixel(j),
                ),
            forall|j: int|
                start.position(0, y as int) <= j < start.area() ==> image@.pixel(j) == start.pixel(
                    j,
                ),
        decreases height - y,
    {
        let mut x: u32 = 0;
        while x < width
            invariant
                x <= width,
                y < height,
                width == start.width,
                height == start.height,
                start.wf(),
                image@.wf(),
                same_frame(start, image@),
                forall|j: int|
                    0 <= j < start.position(x as int, y as int) ==> grayed::<G>(
                        method,
                        start.pixel(j),
                        #[trigger] image@.pixel(j),
                    ),
                forall|j: int|
                    start.position(x as int, y as int) <= j < start.area() ==> image@.pixel(j)
                        == start.pixel(j),
            decreases width - x,
        {
            let ghost before = image@;
            let ghost here = before.position(x as int, y as int);
            proof {
                lemma_position_in_area(before, x as int, y as int);
            }
            let earlier = image.get_pixel(x, y);
            let gray = G::to_bw(method, earlier.rgb());
            let pixel = earlier.with_rgb(gray);
            image.put_pixel(x, y, pixel);
            proof {
                lemma_put_changes_one(before, here, pixel);
            }
            x += 1;
        }
        proof {
            assert(start.position(0, y + 1) == start.position(x as int, y as int))
                by (nonlinear_arith)
                requires
                    x == start.width,
            ;
        }
        y += 1;
    }
    proof {
        assert(start.position(0, y as int) == start.area()) by (nonlinear_arith)
            requires
                y == start.height,
        ;
    }
}

} // verus!
