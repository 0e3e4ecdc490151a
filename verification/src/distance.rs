//! Distances between colours and the metrics that measure them.
use vstd::prelude::*;
use crate::color::{clamps, WorkingColor};

verus! {

/// A distance between two colours: a single-precision number, held as its
/// IEEE 754 bit pattern.
///
/// Distances are ordered as the `totalOrder` predicate of IEEE 754 orders
/// the numbers they stand for: negative numbers before positive ones, `-0`
/// before `+0`, and every NaN at one of the two ends.
#[derive(Clone, Copy, Debug, PartialEq, Eq, Structural)]
pub struct Distance {
    pub bits: u32,
}

impl Distance {
    /// The place of the distance in the total order: smaller is nearer.
    pub open spec fn rank(self) -> int {
        if self.bits < 0x8000_0000 {
            self.bits as int
        } else {
            0x7fff_ffff - self.bits
        }
    }

    /// The distance with this bit pattern.
    pub fn from_bits(bits: u32) -> (distance: Distance)
        ensures
            distance.bits == bits,
    {
        Distance { bits }
    }

    /// The bit pattern of the distance.
    pub fn to_bits(self) -> (bits: u32)
        ensures
            bits == self.bits,
    {
        self.bits
    }

    /// Whether this distance comes strictly before `other` in the total
    /// order.
    pub fn precedes(self, other: Distance) -> (before: bool)
        ensures
            before == (self.rank() < other.rank()),
    {
        let mine: i64 = if self.bits < 0x8000_0000 {
            self.bits as i64
        } else {
            0x7fff_ffff - self.bits as i64
        };
        let theirs: i64 = if other.bits < 0x8000_0000 {
            other.bits as i64
        } else {
            0x7fff_ffff - other.bits as i64
        };
        mine < theirs
    }
}

/// Two distances with one rank are one distance: the order is total and
/// strict.
pub proof fn lemma_rank_decides(a: Distance, b: Distance)
    requires
        a.rank() == b.rank(),
    ensures
        a == b,
{
}

/// A measure of the difference between two colours of one space.
pub trait Difference<C> {
    /// The distance from `a` to `b`.
    fn diff(a: C, b: C) -> Distance;
}

/// The metric `D` has returned `distance` for `a` and `b`.
pub open spec fn measures<C, D: Difference<C>>(a: C, b: C, distance: Distance) -> bool {
    call_ensures(D::diff, (a, b), distance)
}

/// The metric `D` has returned `distance` for what `clamped` made of `a` and
/// of `b`.
pub open spec fn measures_clamped<C: WorkingColor, D: Difference<C>>(
    a: C,
    b: C,
    distance: Distance,
) -> bool {
    exists|inner_a: C, inner_b: C|
        clamps(a, inner_a) && clamps(b, inner_b) && #[trigger] measures::<C, D>(
            inner_a,
            inner_b,
            distance,
        )
}

/// Wraps a metric: both colours are brought into the range of their space
/// before the metric sees them.
pub struct DiffClamp<D> {
    _phantom: core::marker::PhantomData<D>,
}

impl<C: WorkingColor, D: Difference<C>> Difference<C> for DiffClamp<D> {
    fn diff(a: C, b: C) -> (distance: Distance)
        ensures
            measures_clamped::<C, D>(a, b, distance),
    {
        let inner_a = a.clamped();
        let inner_b = b.clamped();
        let distance = D::diff(inner_a, inner_b);
        assert(clamps(a, inner_a) && clamps(b, inner_b) && measures::<C, D>(
            inner_a,
            inner_b,
            distance,
        ));
        distance
    }
}

/// The Euclidean metric: the square root of the sum of the squared channel
/// differences, in the space of the colours.
pub struct DiffEuclid;

/// The Manhattan metric: the sum of the absolute channel differences, in the
/// space of the colours.
pub struct DiffManhattan;

/// The HyAB metric: both colours are taken to CIE L\*a\*b\*; the absolute
/// difference in lightness and the Euclidean distance in the chroma plane
/// are added.
pub struct DiffHyAb;

/// The CIEDE2000 metric: both colours are taken to CIE L\*a\*b\* and the
/// full colour-difference formula is applied.
pub struct DiffCiede2000;

/// The Euclidean metric after both colours are taken to Oklab.
pub struct DiffOklab;

} // verus!
