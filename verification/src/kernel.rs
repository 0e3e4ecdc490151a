//! Error-diffusion kernels: to which neighbours of a pixel its quantisation
//! error goes, and how much of it.
use vstd::prelude::*;

verus! {

/// One neighbour of a kernel: its offset from the pixel at work, and the
/// numerator of the share of the error that it receives.
#[derive(Clone, Copy, Debug, PartialEq, Eq, Structural)]
pub struct Tap {
    pub dx: i32,
    pub dy: i32,
    pub weight: u8,
}

impl Tap {
    /// The neighbour comes after the pixel at work in raster order: it lies
    /// in a later row, or later in the same row.
    pub open spec fn forward(self) -> bool {
        self.dy > 0 || (self.dy == 0 && self.dx > 0)
    }
}

/// Every neighbour of the kernel comes after the pixel at work.
pub open spec fn all_forward(taps: Seq<Tap>) -> bool {
    forall|t: int| 0 <= t < taps.len() ==> (#[trigger] taps[t]).forward()
}

/// The sum of the numerators of a kernel.
pub open spec fn total_weight(taps: Seq<Tap>) -> int
    decreases taps.len(),
{
    if taps.len() == 0 {
        0
    } else {
        total_weight(taps.drop_last()) + taps.last().weight
    }
}

/// The denominator of the shares of the Floyd–Steinberg kernel.
pub const FLOYD_STEINBERG_BASE: u8 = 16;

/// The denominator of the shares of the Stucki kernel.
pub const STUCKI_BASE: u8 = 42;

/// The kernel of Floyd and Steinberg: four neighbours, in the order in which
/// they receive their share.
pub open spec fn floyd_steinberg_kernel() -> Seq<Tap> {
    seq![
        Tap { dx: 1, dy: 0, weight: 7 },
        Tap { dx: -1i32, dy: 1, weight: 3 },
        Tap { dx: 0, dy: 1, weight: 5 },
        Tap { dx: 1, dy: 1, weight: 1 },
    ]
}

/// The kernel of Stucki: twelve neighbours over three rows, in the order in
/// which they receive their share.
pub open spec fn stucki_kernel() -> Seq<Tap> {
    seq![
        Tap { dx: 1, dy: 0, weight: 8 },
        Tap { dx: 2, dy: 0, weight: 4 },
        Tap { dx: -2i32, dy: 1, weight: 2 },
        Tap { dx: -1i32, dy: 1, weight: 4 },
        Tap { dx: 0, dy: 1, weight: 8 },
        Tap { dx: 1, dy: 1, weight: 4 },
        Tap { dx: 2, dy: 1, weight: 2 },
        Tap { dx: -2i32, dy: 2, weight: 1 },
        Tap { dx: -1i32, dy: 2, weight: 2 },
        Tap { dx: 0, dy: 2, weight: 4 },
        Tap { dx: 1, dy: 2, weight: 2 },
        Tap { dx: 2, dy: 2, weight: 1 },
    ]
}

/// The kernel of Floyd and Steinberg.
pub fn floyd_steinberg_taps() -> (taps: Vec<Tap>)
    ensures
        taps@ == floyd_steinberg_kernel(),
        all_forward(taps@),
{
    let taps = vec![
        Tap { dx: 1, dy: 0, weight: 7 },
        Tap { dx: -1i32, dy: 1, weight: 3 },
        Tap { dx: 0, dy: 1, weight: 5 },
        Tap { dx: 1, dy: 1, weight: 1 },
    ];
    taps
}

/// The kernel of Stucki.
pub fn stucki_taps() -> (taps: Vec<Tap>)
    ensures
        taps@ == stucki_kernel(),
        all_forward(taps@),
{
    let taps = vec![
        Tap { dx: 1, dy: 0, weight: 8 },
        Tap { dx: 2, dy: 0, weight: 4 },
        Tap { dx: -2i32, dy: 1, weight: 2 },
        Tap { dx: -1i32, dy: 1, weight: 4 },
        Tap { dx: 0, dy: 1, weight: 8 },
        Tap { dx: 1, dy: 1, weight: 4 },
        Tap { dx: 2, dy: 1, weight: 2 },
        Tap { dx: -2i32, dy: 2, weight: 1 },
        Tap { dx: -1i32, dy: 2, weight: 2 },
        Tap { dx: 0, dy: 2, weight: 4 },
        Tap { dx: 1, dy: 2, weight: 2 },
        Tap { dx: 2, dy: 2, weight: 1 },
    ];
    taps
}

/// The shares of the Floyd–Steinberg kernel add up to the whole error, and
/// each goes to a pixel that is still to come.
pub proof fn lemma_floyd_steinberg_kernel()
    ensures
        floyd_steinberg_kernel().len() == 4,
        all_forward(floyd_steinberg_kernel()),
        total_weight(floyd_steinberg_kernel()) == FLOYD_STEINBERG_BASE,
{
    reveal_with_fuel(total_weight, 5);
}

/// The shares of the Stucki kernel add up to the whole error, and each goes
/// to a pixel that is still to come.
pub proof fn lemma_stucki_kernel()
    ensures
        stucki_kernel().len() == 12,
        all_forward(stucki_kernel()),
        total_weight(stucki_kernel()) == STUCKI_BASE,
{
    let k = stucki_kernel();
    lemma_total_weight_of_prefix(k, 1);
    lemma_total_weight_of_prefix(k, 2);
    lemma_total_weight_of_prefix(k, 3);
    lemma_total_weight_of_prefix(k, 4);
    lemma_total_weight_of_prefix(k, 5);
    lemma_total_weight_of_prefix(k, 6);
    lemma_total_weight_of_prefix(k, 7);
    lemma_total_weight_of_prefix(k, 8);
    lemma_total_weight_of_prefix(k, 9);
    lemma_total_weight_of_prefix(k, 10);
    lemma_total_weight_of_prefix(k, 11);
    lemma_total_weight_of_prefix(k, 12);
}

/// The sum of the numerators of the first `n` neighbours, one by one.
proof fn lemma_total_weight_of_prefix(taps: Seq<Tap>, n: int)
    requires
        0 <= n <= taps.len(),
    ensures
        total_weight(taps.take(n)) == if n == 0 {
            0
        } else {
            total_weight(taps.take(n - 1)) + taps[n - 1].weight
        },
{
    if n > 0 {
        assert(taps.take(n).drop_last() =~= taps.take(n - 1));
    }
}

} // verus!
