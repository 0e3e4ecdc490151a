//! Where the colour space and the metric are functions, the algorithms are
//! functions too.
//!
//! The contracts of this crate relate a raster to what the methods of
//! [`WorkingColor`] and [`Difference`] have returned. A method that returns
//! one value for one input, as a computation in floating point does, leaves
//! the thresholding and the error diffusion no choice: the raster that comes
//! out is fixed by the raster that went in and the palette.
use vstd::prelude::*;
use crate::color::{adds, clamps, enters, leaves, scales, subtracts, WorkingColor};
use crate::diffusion::{
    diffused, lemma_spread_keeps_wf, lemma_swept_keeps_wf, neighbor, nudged_by,
    snapped_with_error, snapped_with_error_by, spread, stepped, stepped_by, swept,
};
use crate::distance::{measures, measures_clamped, DiffClamp, Difference, Distance};
use crate::dither::{snapped, snapped_by, thresholded};
use crate::kernel::Tap;
use crate::palette::{is_first_minimum, lemma_first_minimum_unique, measured, nearest_of};
use crate::pixel::{Pixel, Rgb};
use crate::raster::{lemma_position_in_area, same_frame, Grid};

verus! {

/// Every method of the colour space that the algorithms call on a colour
/// returns one value for one input.
pub open spec fn space_is_function<C: WorkingColor>() -> bool {
    &&& forall|rgb: Rgb, a: C, b: C|
        #![trigger enters(rgb, a), enters(rgb, b)]
        enters(rgb, a) && enters(rgb, b) ==> a == b
    &&& forall|color: C, a: Rgb, b: Rgb|
        #![trigger leaves(color, a), leaves(color, b)]
        leaves(color, a) && leaves(color, b) ==> a == b
    &&& forall|x: C, y: C, a: C, b: C|
        #![trigger adds(x, y, a), adds(x, y, b)]
        adds(x, y, a) && adds(x, y, b) ==> a == b
    &&& forall|x: C, y: C, a: C, b: C|
        #![trigger subtracts(x, y, a), subtracts(x, y, b)]
        subtracts(x, y, a) && subtracts(x, y, b) ==> a == b
    &&& forall|x: C, n: u8, d: u8, a: C, b: C|
        #![trigger scales(x, n, d, a), scales(x, n, d, b)]
        scales(x, n, d, a) && scales(x, n, d, b) ==> a == b
    &&& forall|x: C, a: C, b: C|
        #![trigger clamps(x, a), clamps(x, b)]
        clamps(x, a) && clamps(x, b) ==> a == b
}

/// The metric returns one distance for one pair of colours.
pub open spec fn metric_is_function<C, D: Difference<C>>() -> bool {
    forall|x: C, y: C, a: Distance, b: Distance|
        #![trigger measures::<C, D>(x, y, a), measures::<C, D>(x, y, b)]
        measures::<C, D>(x, y, a) && measures::<C, D>(x, y, b) ==> a == b
}

/// Behind the clamp a metric that is a function stays one, where the colour
/// space is a function too.
pub proof fn lemma_clamped_metric_is_function<C: WorkingColor, D: Difference<C>>()
    requires
        space_is_function::<C>(),
        metric_is_function::<C, D>(),
    ensures
        metric_is_function::<C, DiffClamp<D>>(),
{
    assert forall|x: C, y: C, a: Distance, b: Distance|
        #![trigger measures::<C, DiffClamp<D>>(x, y, a), measures::<C, DiffClamp<D>>(x, y, b)]
        measures::<C, DiffClamp<D>>(x, y, a) && measures::<C, DiffClamp<D>>(
            x,
            y,
            b,
        ) implies a == b by {
        assert(measures_clamped::<C, D>(x, y, a));
        assert(measures_clamped::<C, D>(x, y, b));
        let (xa, ya) = choose|inner_a: C, inner_b: C|
            clamps(x, inner_a) && clamps(y, inner_b) && #[trigger] measures::<C, D>(
                inner_a,
                inner_b,
                a,
            );
        let (xb, yb) = choose|inner_a: C, inner_b: C|
            clamps(x, inner_a) && clamps(y, inner_b) && #[trigger] measures::<C, D>(
                inner_a,
                inner_b,
                b,
            );
        assert(xa == xb && ya == yb);
    }
}

/// Two grids of one frame that agree in every pixel are one grid.
pub proof fn lemma_grids_agree(before: Grid, a: Grid, b: Grid)
    requires
        before.wf(),
        same_frame(before, a),
        same_frame(before, b),
        forall|i: int| 0 <= i < before.area() ==> a.pixel(i) == b.pixel(i),
    ensures
        a == b,
{
    assert forall|s: int| 0 <= s < a.samples.len() implies a.samples[s] == b.samples[s] by {
        if s < 4 * before.area() {
            let i = s / 4;
            assert(a.pixel(i) == b.pixel(i));
        }
    }
    assert(a.samples =~= b.samples);
}

/// With a metric that is a function, a palette has one nearest colour to a
/// target.
pub proof fn lemma_nearest_is_unique<C, D: Difference<C>>(
    colors: Seq<C>,
    target: C,
    a: C,
    b: C,
)
    requires
        metric_is_function::<C, D>(),
        nearest_of::<C, D>(colors, target, a),
        nearest_of::<C, D>(colors, target, b),
    ensures
        a == b,
{
    let (da, ka) = choose|distances: Seq<Distance>, k: int|
        #![trigger measured::<C, D>(colors, target, distances), is_first_minimum(distances, k)]
        measured::<C, D>(colors, target, distances) && is_first_minimum(distances, k) && a
            == colors[k];
    let (db, kb) = choose|distances: Seq<Distance>, k: int|
        #![trigger measured::<C, D>(colors, target, distances), is_first_minimum(distances, k)]
        measured::<C, D>(colors, target, distances) && is_first_minimum(distances, k) && b
            == colors[k];
    assert forall|j: int| 0 <= j < colors.len() implies da[j] == db[j] by {}
    lemma_first_minimum_unique(da, ka, kb);
}

/// With functions, a pixel is snapped to one pixel, and one error is left.
pub proof fn lemma_snapped_is_unique<C: WorkingColor, D: Difference<C>>(
    palette: Seq<C>,
    p: Pixel,
    a: Pixel,
    b: Pixel,
    error_a: C,
    error_b: C,
)
    requires
        space_is_function::<C>(),
        metric_is_function::<C, D>(),
        snapped_with_error::<C, D>(palette, p, a, error_a),
        snapped_with_error::<C, D>(palette, p, b, error_b),
    ensures
        a == b,
        error_a == error_b,
{
    let (sa, ca) = choose|source: C, chosen: C|
        snapped_with_error_by::<C, D>(palette, p, a, error_a, source, chosen);
    let (sb, cb) = choose|source: C, chosen: C|
        snapped_with_error_by::<C, D>(palette, p, b, error_b, source, chosen);
    assert(sa == sb);
    lemma_nearest_is_unique::<C, D>(palette, sa, ca, cb);
}

/// With functions, thresholding has one outcome.
pub proof fn lemma_threshold_is_unique<C: WorkingColor, D: Difference<C>>(
    palette: Seq<C>,
    before: Grid,
    a: Grid,
    b: Grid,
)
    requires
        before.wf(),
        space_is_function::<C>(),
        metric_is_function::<C, D>(),
        thresholded::<C, D>(before, a, palette),
        thresholded::<C, D>(before, b, palette),
    ensures
        a == b,
{
    assert forall|i: int| 0 <= i < before.area() implies a.pixel(i) == b.pixel(i) by {
        let p = before.pixel(i);
        let qa = a.pixel(i);
        let qb = b.pixel(i);
        let (sa, ca) = choose|source: C, chosen: C|
            snapped_by::<C, D>(palette, p, qa, source, chosen);
        let (sb, cb) = choose|source: C, chosen: C|
            snapped_by::<C, D>(palette, p, qb, source, chosen);
        assert(sa == sb);
        lemma_nearest_is_unique::<C, D>(palette, sa, ca, cb);
    }
    lemma_grids_agree(before, a, b);
}

/// With functions, a share of the error changes its neighbour in one way.
pub proof fn lemma_diffused_is_unique<C: WorkingColor>(
    before: Grid,
    a: Grid,
    b: Grid,
    error: C,
    x: int,
    y: int,
    tap: Tap,
    base: u8,
)
    requires
        before.wf(),
        space_is_function::<C>(),
        diffused(before, a, error, x, y, tap, base),
        diffused(before, b, error, x, y, tap, base),
    ensures
        a == b,
{
    match neighbor(before, x, y, tap.dx as int, tap.dy as int) {
        None => {},
        Some(i) => {
            lemma_position_in_area(before, x + tap.dx, y + tap.dy);
            let p = before.pixel(i);
            let qa = a.pixel(i);
            let qb = b.pixel(i);
            let (ca, pa, ta) = choose|current: C, part: C, total: C|
                nudged_by(p, qa, error, tap.weight, base, current, part, total);
            let (cb, pb, tb) = choose|current: C, part: C, total: C|
                nudged_by(p, qb, error, tap.weight, base, current, part, total);
            assert(ca == cb && pa == pb && ta == tb);
            assert forall|j: int| 0 <= j < before.area() implies a.pixel(j) == b.pixel(j) by {}
            lemma_grids_agree(before, a, b);
        },
    }
}

/// With functions, handing the error on along a kernel has one outcome.
pub proof fn lemma_spread_is_unique<C: WorkingColor>(
    before: Grid,
    a: Grid,
    b: Grid,
    error: C,
    x: int,
    y: int,
    taps: Seq<Tap>,
    base: u8,
)
    requires
        before.wf(),
        space_is_function::<C>(),
        spread(before, a, error, x, y, taps, base),
        spread(before, b, error, x, y, taps, base),
    ensures
        a == b,
    decreases taps.len(),
{
    if taps.len() > 0 {
        let ma = choose|mid: Grid|
            spread(before, mid, error, x, y, taps.drop_last(), base) && #[trigger] diffused(
                mid,
                a,
                error,
                x,
                y,
                taps.last(),
                base,
            );
        let mb = choose|mid: Grid|
            spread(before, mid, error, x, y, taps.drop_last(), base) && #[trigger] diffused(
                mid,
                b,
                error,
                x,
                y,
                taps.last(),
                base,
            );
        lemma_spread_is_unique(before, ma, mb, error, x, y, taps.drop_last(), base);
        lemma_spread_keeps_wf(before, ma, error, x, y, taps.drop_last(), base);
        lemma_diffused_is_unique(ma, a, b, error, x, y, taps.last(), base);
    }
}

/// With functions, the step of one pixel has one outcome.
pub proof fn lemma_stepped_is_unique<C: WorkingColor, D: Difference<C>>(
    palette: Seq<C>,
    taps: Seq<Tap>,
    base: u8,
    before: Grid,
    a: Grid,
    b: Grid,
    x: int,
    y: int,
)
    requires
        before.wf(),
        before.holds(x, y),
        space_is_function::<C>(),
        metric_is_function::<C, D>(),
        stepped::<C, D>(palette, taps, base, before, a, x, y),
        stepped::<C, D>(palette, taps, base, before, b, x, y),
    ensures
        a == b,
{
    let (ea, pa) = choose|error: C, placed: Grid|
        stepped_by::<C, D>(palette, taps, base, before, a, x, y, error, placed);
    let (eb, pb) = choose|error: C, placed: Grid|
        stepped_by::<C, D>(palette, taps, base, before, b, x, y, error, placed);
    lemma_position_in_area(before, x, y);
    lemma_snapped_is_unique::<C, D>(palette, before.at(x, y), pa.at(x, y), pb.at(x, y), ea, eb);
    assert forall|j: int| 0 <= j < before.area() implies pa.pixel(j) == pb.pixel(j) by {}
    lemma_grids_agree(before, pa, pb);
    lemma_spread_is_unique(pa, a, b, ea, x, y, taps, base);
}

/// With functions, error diffusion has one outcome: the sweep up to a pixel
/// of the raster leaves one grid.
pub proof fn lemma_sweep_is_unique<C: WorkingColor, D: Difference<C>>(
    palette: Seq<C>,
    taps: Seq<Tap>,
    base: u8,
    start: Grid,
    a: Grid,
    b: Grid,
    x: nat,
    y: nat,
)
    requires
        start.wf(),
        x <= start.width,
        y < start.height || (x == 0 && y == start.height),
        space_is_function::<C>(),
        metric_is_function::<C, D>(),
        swept::<C, D>(palette, taps, base, start, a, x, y),
        swept::<C, D>(palette, taps, base, start, b, x, y),
    ensures
        a == b,
    decreases y, x,
{
    if x > 0 {
        let ma = choose|mid: Grid|
            swept::<C, D>(palette, taps, base, start, mid, (x - 1) as nat, y)
                && #[trigger] stepped::<C, D>(palette, taps, base, mid, a, x - 1, y as int);
        let mb = choose|mid: Grid|
            swept::<C, D>(palette, taps, base, start, mid, (x - 1) as nat, y)
                && #[trigger] stepped::<C, D>(palette, taps, base, mid, b, x - 1, y as int);
        lemma_sweep_is_unique::<C, D>(palette, taps, base, start, ma, mb, (x - 1) as nat, y);
        lemma_swept_keeps_wf::<C, D>(palette, taps, base, start, ma, (x - 1) as nat, y);
        lemma_stepped_is_unique::<C, D>(palette, taps, base, ma, a, b, x - 1, y as int);
    } else if y > 0 {
        lemma_sweep_is_unique::<C, D>(
            palette,
            taps,
            base,
            start,
            a,
            b,
            start.width,
            (y - 1) as nat,
        );
    }
}

} // verus!
