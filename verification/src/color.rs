//! The colour space adapter: how device colours enter a working space, how
//! working colours leave it, and the arithmetic that carries quantisation
//! error from one pixel to the next.
use vstd::prelude::*;
use crate::pixel::{Pixel, Rgb};

verus! {

/// The generator of the random algorithm, as the `rand` crate keeps it.
#[verifier::external_type_specification]
#[verifier::external_body]
pub struct ExSmallRng(rand::rngs::SmallRng);

/// `SmallRng::seed_from_u64`: a generator started from the seed. Its output
/// is fixed by the seed on one machine and one version of the crate only, so
/// nothing is said of it.
#[verifier::external_body]
pub(crate) fn seeded_generator(seed: u64) -> (rng: rand::rngs::SmallRng) {
    rand::SeedableRng::seed_from_u64(seed)
}

/// A colour in a working space: three channels in floating point.
///
/// The implementor decides what the channels mean. The methods are total:
/// a colour that has drifted out of gamut is still a colour, and
/// `from_space` saturates each channel into `0..=255` instead of failing.
pub trait WorkingColor: Copy {
    /// The device colour as a colour of this space.
    fn to_space(rgb: Rgb) -> Self;

    /// The nearest device colour, each channel saturated into range.
    fn from_space(self) -> Rgb;

    /// The sum, channel by channel.
    fn plus(self, other: Self) -> Self;

    /// The difference, channel by channel.
    fn minus(self, other: Self) -> Self;

    /// Each channel times the fraction `numerator / denominator`.
    fn scaled(self, numerator: u8, denominator: u8) -> Self;

    /// The colour with each channel brought into the range of the space.
    fn clamped(self) -> Self;

    /// Three channels drawn one after the other from `rng`, each uniform
    /// between `-radius` and `radius`, both included.
    fn noise(rng: &mut rand::rngs::SmallRng, radius: u8) -> Self;
}

/// `to_space` has returned `color` for `rgb`.
pub open spec fn enters<C: WorkingColor>(rgb: Rgb, color: C) -> bool {
    call_ensures(C::to_space, (rgb,), color)
}

/// `from_space` has returned `rgb` for `color`.
pub open spec fn leaves<C: WorkingColor>(color: C, rgb: Rgb) -> bool {
    call_ensures(C::from_space, (color,), rgb)
}

/// `plus` has returned `sum` for `a` and `b`.
pub open spec fn adds<C: WorkingColor>(a: C, b: C, sum: C) -> bool {
    call_ensures(C::plus, (a, b), sum)
}

/// `minus` has returned `gap` for `a` and `b`.
pub open spec fn subtracts<C: WorkingColor>(a: C, b: C, gap: C) -> bool {
    call_ensures(C::minus, (a, b), gap)
}

/// `scaled` has returned `part` for `color` and the fraction.
pub open spec fn scales<C: WorkingColor>(color: C, numerator: u8, denominator: u8, part: C) -> bool {
    call_ensures(C::scaled, (color, numerator, denominator), part)
}

/// `clamped` has returned `inside` for `color`.
pub open spec fn clamps<C: WorkingColor>(color: C, inside: C) -> bool {
    call_ensures(C::clamped, (color,), inside)
}

/// The colour of a pixel in the working space; the alpha channel is not read.
pub fn pixel_to_color<C: WorkingColor>(pixel: Pixel) -> (color: C)
    ensures
        enters(pixel.color(), color),
{
    C::to_space(pixel.rgb())
}

/// Overwrites the colour of a pixel with the device colour nearest to
/// `color`; the alpha channel stays.
pub fn update_pixel_with_color<C: WorkingColor>(pixel: &mut Pixel, color: C)
    ensures
        final(pixel).alpha == old(pixel).alpha,
        leaves(color, final(pixel).color()),
{
    let rgb = color.from_space();
    *pixel = pixel.with_rgb(rgb);
}

} // verus!
