//! The composer: binds one algorithm and one metric to a colour space, once
//! for a run, and runs them.
use vstd::prelude::*;
use crate::color::{enters, WorkingColor};
use crate::distance::{
    DiffCiede2000, DiffClamp, DiffEuclid, DiffHyAb, DiffManhattan, Difference,
};
use crate::dither::{
    reduced, AlgoFloydSteinberg, AlgoRandom, AlgoStucki, AlgoThreshold, Algorithm,
};
use crate::palette::Palette;
use crate::pixel::Rgb;
use crate::raster::{Grid, Raster};

verus! {

/// The algorithms that a run can be made with.
#[derive(Clone, Copy, Debug, PartialEq, Eq, Structural)]
pub enum DitherAlgorithm {
    /// [`AlgoThreshold`].
    Threshold,
    /// [`AlgoRandom`].
    Random,
    /// [`AlgoFloydSteinberg`].
    FloydSteinberg,
    /// [`AlgoStucki`].
    Stucki,
}

/// The colour spaces that a run can work in.
#[derive(Clone, Copy, Debug, PartialEq, Eq, Structural)]
pub enum DitherColorSpace {
    /// Standard RGB, gamma encoded.
    Srgb,
    /// Linear RGB.
    LinSrgb,
    /// CIE L\*a\*b\*.
    Cielab,
    /// CIE L\*u\*v\*.
    Cieluv,
    /// CIE L\*C\*h, the polar form of CIE L\*a\*b\*.
    Cielch,
    /// Oklab.
    Oklab,
    /// Okhsl.
    Okhsl,
    /// Okhsv.
    Okhsv,
}

/// The metrics that a run can measure with: each of four, bare or behind
/// the clamp.
#[derive(Clone, Copy, Debug, PartialEq, Eq, Structural)]
pub enum DitherDifference {
    Euclid,
    EuclidClamp,
    HyAb,
    HyAbClamp,
    Ciede2000,
    Ciede2000Clamp,
    Manhattan,
    ManhattanClamp,
}

/// What a run is made with.
pub struct DitherCmd {
    pub algorithm: DitherAlgorithm,
    pub color_space: DitherColorSpace,
    pub difference: DitherDifference,
    /// The palette, as device colours in the order in which they were given.
    pub palette: Vec<Rgb>,
}

/// `palette` holds, place by place, what `to_space` has made of `colors`.
pub open spec fn palette_of<C: WorkingColor>(colors: Seq<Rgb>, palette: Seq<C>) -> bool {
    &&& palette.len() == colors.len()
    &&& forall|j: int| 0 <= j < colors.len() ==> enters(colors[j], #[trigger] palette[j])
}

/// `after` is what the algorithm `A` has made of `before` with some palette
/// that `to_space` has made of `colors`.
pub open spec fn ran<A: Algorithm<C, D>, C: WorkingColor, D: Difference<C>>(
    colors: Seq<Rgb>,
    before: Grid,
    after: Grid,
) -> bool {
    exists|palette: Seq<C>|
        #![trigger A::outcome(before, after, palette)]
        palette_of(colors, palette) && reduced(before, after, palette) && A::outcome(
            before,
            after,
            palette,
        )
}

/// `ran` with the algorithm that `algorithm` names.
pub open spec fn ran_cd<C: WorkingColor, D: Difference<C>>(
    algorithm: DitherAlgorithm,
    colors: Seq<Rgb>,
    before: Grid,
    after: Grid,
) -> bool {
    match algorithm {
        DitherAlgorithm::Threshold => ran::<AlgoThreshold, C, D>(colors, before, after),
        DitherAlgorithm::Random => ran::<AlgoRandom, C, D>(colors, before, after),
        DitherAlgorithm::FloydSteinberg => ran::<AlgoFloydSteinberg, C, D>(colors, before, after),
        DitherAlgorithm::Stucki => ran::<AlgoStucki, C, D>(colors, before, after),
    }
}

/// `ran_cd` with the metric that `difference` names.
pub open spec fn ran_c<C: WorkingColor>(
    difference: DitherDifference,
    algorithm: DitherAlgorithm,
    colors: Seq<Rgb>,
    before: Grid,
    after: Grid,
) -> bool where
    DiffEuclid: Difference<C>,
    DiffHyAb: Difference<C>,
    DiffCiede2000: Difference<C>,
    DiffManhattan: Difference<C>,
{
    match difference {
        DitherDifference::Euclid => ran_cd::<C, DiffEuclid>(algorithm, colors, before, after),
        DitherDifference::EuclidClamp => ran_cd::<C, DiffClamp<DiffEuclid>>(
            algorithm,
            colors,
            before,
            after,
        ),
        DitherDifference::HyAb => ran_cd::<C, DiffHyAb>(algorithm, colors, before, after),
        DitherDifference::HyAbClamp => ran_cd::<C, DiffClamp<DiffHyAb>>(
            algorithm,
            colors,
            before,
            after,
        ),
        DitherDifference::Ciede2000 => ran_cd::<C, DiffCiede2000>(
            algorithm,
            colors,
            before,
            after,
        ),
        DitherDifference::Ciede2000Clamp => ran_cd::<C, DiffClamp<DiffCiede2000>>(
            algorithm,
            colors,
            before,
            after,
        ),
        DitherDifference::Manhattan => ran_cd::<C, DiffManhattan>(
            algorithm,
            colors,
            before,
            after,
        ),
        DitherDifference::ManhattanClamp => ran_cd::<C, DiffClamp<DiffManhattan>>(
            algorithm,
            colors,
            before,
            after,
        ),
    }
}

impl DitherCmd {
    /// Whether the run can be made on a raster of this size: a raster with a
    /// pixel needs a palette with a colour.
    pub open spec fn fits(&self, grid: Grid) -> bool {
        grid.area() > 0 ==> self.palette@.len() > 0
    }

    /// Runs in the colour space `C` with the metric that the run names.
    pub fn run_c<C: WorkingColor>(&self, image: Raster) -> (out: Raster) where
        DiffEuclid: Difference<C>,
        DiffHyAb: Difference<C>,
        DiffCiede2000: Difference<C>,
        DiffManhattan: Difference<C>,
        requires
            self.fits(image@),
        ensures
            ran_c::<C>(self.difference, self.algorithm, self.palette@, image@, out@),
    {
        match self.difference {
            DitherDifference::Euclid => self.run_cd::<C, DiffEuclid>(image),
            DitherDifference::EuclidClamp => self.run_cd::<C, DiffClamp<DiffEuclid>>(image),
            DitherDifference::HyAb => self.run_cd::<C, DiffHyAb>(image),
            DitherDifference::HyAbClamp => self.run_cd::<C, DiffClamp<DiffHyAb>>(image),
            DitherDifference::Ciede2000 => self.run_cd::<C, DiffCiede2000>(image),
            DitherDifference::Ciede2000Clamp => self.run_cd::<C, DiffClamp<DiffCiede2000>>(image),
            DitherDifference::Manhattan => self.run_cd::<C, DiffManhattan>(image),
            DitherDifference::ManhattanClamp => self.run_cd::<C, DiffClamp<DiffManhattan>>(image),
        }
    }

    /// Runs in the colour space `C` and with the metric `D` the algorithm
    /// that the run names.
    pub fn run_cd<C: WorkingColor, D: Difference<C>>(&self, image: Raster) -> (out: Raster)
        requires
            self.fits(image@),
        ensures
            ran_cd::<C, D>(self.algorithm, self.palette@, image@, out@),
    {
        match self.algorithm {
            DitherAlgorithm::Threshold => self.run_acd::<AlgoThreshold, C, D>(image),
            DitherAlgorithm::Random => self.run_acd::<AlgoRandom, C, D>(image),
            DitherAlgorithm::FloydSteinberg => self.run_acd::<AlgoFloydSteinberg, C, D>(image),
            DitherAlgorithm::Stucki => self.run_acd::<AlgoStucki, C, D>(image),
        }
    }

    /// Takes the palette into the colour space `C` and runs the algorithm
    /// `A` with the metric `D`.
    pub fn run_acd<A: Algorithm<C, D>, C: WorkingColor, D: Difference<C>>(
        &self,
        image: Raster,
    ) -> (out: Raster)
        requires
            self.fits(image@),
        ensures
            ran::<A, C, D>(self.palette@, image@, out@),
    {
        let palette = Palette::<C>::from_device(&self.palette);
        let ghost before = image@;
        let out = A::run(image, &palette);
        assert(palette_of(self.palette@, palette@) && A::outcome(before, out@, palette@));
        out
    }
}

} // verus!
