//! Error diffusion: what the quantisation of a pixel loses is handed on to
//! the pixels that are still to come.
//!
//! The pixels are visited in raster order. A kernel names the neighbours
//! that receive a share of the error and the size of each share. A share
//! whose neighbour lies outside the raster is dropped: nothing wraps around
//! an edge, and what is dropped is not made up for elsewhere.
use vstd::prelude::*;
use crate::color::{
    adds, enters, leaves, pixel_to_color, scales, subtracts, update_pixel_with_color, WorkingColor,
};
use crate::distance::Difference;
use crate::dither::{
    covered, lemma_snapped_is_covered, reduced, snapped_by, thresholded,
};
use crate::kernel::{all_forward, Tap};
use crate::palette::Palette;
use crate::pixel::Pixel;
use crate::raster::{
    lemma_position_in_area, lemma_put_changes_one, only_changed, same_frame, Grid, Raster,
};

verus! {

/// The place in raster order of the neighbour at offset `(dx, dy)` of column
/// `x` of row `y`, if the grid has such a pixel: nothing wraps around an
/// edge.
pub open spec fn neighbor(grid: Grid, x: int, y: int, dx: int, dy: int) -> Option<int> {
    if grid.holds(x + dx, y + dy) {
        Some(grid.position(x + dx, y + dy))
    } else {
        None
    }
}

/// The steps by which `q` has come from `p` when a share of `error` was
/// added to it.
pub open spec fn nudged_by<C: WorkingColor>(
    p: Pixel,
    q: Pixel,
    error: C,
    numerator: u8,
    denominator: u8,
    current: C,
    part: C,
    total: C,
) -> bool {
    &&& enters(p.color(), current)
    &&& scales(error, numerator, denominator, part)
    &&& adds(current, part, total)
    &&& leaves(total, q.color())
    &&& q.alpha == p.alpha
}

/// `q` is `p` after the share `numerator / denominator` of `error` was added
/// to its colour in the working space.
pub open spec fn nudged<C: WorkingColor>(
    p: Pixel,
    q: Pixel,
    error: C,
    numerator: u8,
    denominator: u8,
) -> bool {
    exists|current: C, part: C, total: C|
        nudged_by(p, q, error, numerator, denominator, current, part, total)
}

/// `after` is `before` once the pixel at column `x` of row `y` has handed the
/// share of `error` that `tap` names to the neighbour that `tap` names. A
/// share whose neighbour lies outside the grid is dropped.
pub open spec fn diffused<C: WorkingColor>(
    before: Grid,
    after: Grid,
    error: C,
    x: int,
    y: int,
    tap: Tap,
    base: u8,
) -> bool {
    match neighbor(before, x, y, tap.dx as int, tap.dy as int) {
        None => after == before,
        Some(i) => {
            &&& only_changed(before, after, i)
            &&& nudged(before.pixel(i), after.pixel(i), error, tap.weight, base)
        },
    }
}

/// `after` is `before` once every neighbour of `taps` has had its share, one
/// after the other in the order of `taps`.
pub open spec fn spread<C: WorkingColor>(
    before: Grid,
    after: Grid,
    error: C,
    x: int,
    y: int,
    taps: Seq<Tap>,
    base: u8,
) -> bool
    decreases taps.len(),
{
    if taps.len() == 0 {
        after == before
    } else {
        exists|mid: Grid|
            spread(before, mid, error, x, y, taps.drop_last(), base) && #[trigger] diffused(
                mid,
                after,
                error,
                x,
                y,
                taps.last(),
                base,
            )
    }
}

/// As `snapped_by`, and `error` is what `minus` has made of `source` and
/// `chosen`.
pub open spec fn snapped_with_error_by<C: WorkingColor, D: Difference<C>>(
    palette: Seq<C>,
    p: Pixel,
    q: Pixel,
    error: C,
    source: C,
    chosen: C,
) -> bool {
    &&& snapped_by::<C, D>(palette, p, q, source, chosen)
    &&& subtracts(source, chosen, error)
}

/// `q` is `p` with its colour replaced by the device colour of the palette
/// entry nearest to it, and `error` is what the replacement has lost: the
/// colour of `p` in the working space minus that entry.
pub open spec fn snapped_with_error<C: WorkingColor, D: Difference<C>>(
    palette: Seq<C>,
    p: Pixel,
    q: Pixel,
    error: C,
) -> bool {
    exists|source: C, chosen: C| snapped_with_error_by::<C, D>(palette, p, q, error, source, chosen)
}

/// The steps of `stepped`: `placed` is the grid after the pixel was
/// quantised and before its error was handed on.
pub open spec fn stepped_by<C: WorkingColor, D: Difference<C>>(
    palette: Seq<C>,
    taps: Seq<Tap>,
    base: u8,
    before: Grid,
    after: Grid,
    x: int,
    y: int,
    error: C,
    placed: Grid,
) -> bool {
    &&& only_changed(before, placed, before.position(x, y))
    &&& snapped_with_error::<C, D>(palette, before.at(x, y), placed.at(x, y), error)
    &&& spread(placed, after, error, x, y, taps, base)
}

/// `after` is `before` once the pixel at column `x` of row `y` was quantised
/// and what the quantisation lost was handed to its neighbours.
pub open spec fn stepped<C: WorkingColor, D: Difference<C>>(
    palette: Seq<C>,
    taps: Seq<Tap>,
    base: u8,
    before: Grid,
    after: Grid,
    x: int,
    y: int,
) -> bool {
    exists|error: C, placed: Grid|
        stepped_by::<C, D>(palette, taps, base, before, after, x, y, error, placed)
}

/// `now` is `start` once every pixel before column `x` of row `y` has had its
/// step, row by row from the top and from left to right in each row.
pub open spec fn swept<C: WorkingColor, D: Difference<C>>(
    palette: Seq<C>,
    taps: Seq<Tap>,
    base: u8,
    start: Grid,
    now: Grid,
    x: nat,
    y: nat,
) -> bool
    decreases y, x,
{
    if x > 0 {
        exists|mid: Grid|
            swept::<C, D>(palette, taps, base, start, mid, (x - 1) as nat, y)
                && #[trigger] stepped::<C, D>(palette, taps, base, mid, now, x - 1, y as int)
    } else if y > 0 {
        swept::<C, D>(palette, taps, base, start, now, start.width, (y - 1) as nat)
    } else {
        now == start
    }
}

/// Adds the share `numerator / denominator` of `error` to the neighbour at
/// offset `(dx, dy)` of column `x` of row `y`. A neighbour outside the
/// raster gets nothing: the share is dropped, and nothing wraps around an
/// edge.
pub fn diffuse_error<C: WorkingColor>(
    image: &mut Raster,
    error: C,
    x: u32,
    y: u32,
    dx: i32,
    dy: i32,
    numerator: u8,
    denominator: u8,
)
    ensures
        diffused(
            old(image)@,
            final(image)@,
            error,
            x as int,
            y as int,
            Tap { dx, dy, weight: numerator },
            denominator,
        ),
        final(image)@.wf(),
{
    let ghost before = image@;
    let (width, height) = image.dimensions();
    let column: i64 = x as i64 + dx as i64;
    let row: i64 = y as i64 + dy as i64;
    if column < 0 || row < 0 || column >= width as i64 || row >= height as i64 {
        return ;
    }
    let column: u32 = column as u32;
    let row: u32 = row as u32;
    let mut pixel = image.get_pixel(column, row);
    let current: C = pixel_to_color(pixel);
    let part = error.scaled(numerator, denominator);
    let total = current.plus(part);
    update_pixel_with_color(&mut pixel, total);
    image.put_pixel(column, row, pixel);
    proof {
        let i = before.position(column as int, row as int);
        lemma_position_in_area(before, column as int, row as int);
        lemma_put_changes_one(before, i, pixel);
        assert(nudged_by(
            before.pixel(i),
            image@.pixel(i),
            error,
            numerator,
            denominator,
            current,
            part,
            total,
        ));
    }
}

/// Hands the shares of `error` to the neighbours of column `x` of row `y`,
/// in the order of `taps`.
pub fn spread_error<C: WorkingColor>(
    image: &mut Raster,
    error: C,
    x: u32,
    y: u32,
    taps: &Vec<Tap>,
    base: u8,
)
    ensures
        spread(old(image)@, final(image)@, error, x as int, y as int, taps@, base),
{
    let ghost before = image@;
    let mut t: usize = 0;
    while t < taps.len()
        invariant
            t <= taps.len(),
            spread(before, image@, error, x as int, y as int, taps@.take(t as int), base),
        decreases taps.len() - t,
    {
        let ghost mid = image@;
        let tap = taps[t];
        diffuse_error(image, error, x, y, tap.dx, tap.dy, tap.weight, base);
        proof {
            let done = taps@.take(t + 1);
            assert(done.drop_last() =~= taps@.take(t as int));
            assert(diffused(mid, image@, error, x as int, y as int, done.last(), base));
        }
        t += 1;
    }
    assert(taps@.take(t as int) =~= taps@);
}

/// Quantises the raster by error diffusion along the kernel `taps`, whose
/// shares have the denominator `base`.
///
/// The pixels are visited row by row from the top, each row from the left.
/// Each is replaced by the palette entry nearest to it, and what the
/// replacement has lost is added, share by share, to the neighbours that the
/// kernel names and the raster holds.
pub fn diffuse<C: WorkingColor, D: Difference<C>>(
    image: Raster,
    palette: &Palette<C>,
    taps: &Vec<Tap>,
    base: u8,
) -> (out: Raster)
    requires
        image@.area() > 0 ==> palette@.len() > 0,
        all_forward(taps@),
    ensures
        swept::<C, D>(palette@, taps@, base, image@, out@, 0, image@.height),
        reduced(image@, out@, palette@),
{
    let ghost start = image@;
    let mut image = image;
    let (width, height) = image.dimensions();
    let mut y: u32 = 0;
    while y < height
        invariant
            y <= height,
            width == start.width,
            height == start.height,
            start.wf(),
            image@.wf(),
            same_frame(start, image@),
            start.area() > 0 ==> palette@.len() > 0,
            all_forward(taps@),
            swept::<C, D>(palette@, taps@, base, start, image@, 0, y as nat),
            forall|j: int|
                0 <= j < start.area() ==> (#[trigger] image@.pixel(j)).alpha == start.pixel(
                    j,
                ).alpha,
            forall|j: int|
                0 <= j < start.position(0, y as int) ==> covered(
                    palette@,
                    #[trigger] image@.pixel(j),
                ),
        decreases height - y,
    {
        let mut x: u32 = 0;
        while x < width
            invariant
                x <= width,
                y < height,
                width == start.width,
                height == start.height,
                start.wf(),
                image@.wf(),
                same_frame(start, image@),
                start.area() > 0 ==> palette@.len() > 0,
                all_forward(taps@),
                swept::<C, D>(palette@, taps@, base, start, image@, x as nat, y as nat),
                forall|j: int|
                    0 <= j < start.area() ==> (#[trigger] image@.pixel(j)).alpha == start.pixel(
                        j,
                    ).alpha,
                forall|j: int|
                    0 <= j < start.position(x as int, y as int) ==> covered(
                        palette@,
                        #[trigger] image@.pixel(j),
                    ),
            decreases width - x,
        {
            let ghost before = image@;
            let ghost here = before.position(x as int, y as int);
            proof {
                lemma_position_in_area(before, x as int, y as int);
            }
            let mut pixel = image.get_pixel(x, y);
            let ghost earlier = pixel;
            let source: C = pixel_to_color(pixel);
            let chosen = palette.nearest::<D>(source);
            let error = source.minus(chosen);
            update_pixel_with_color(&mut pixel, chosen);
            image.put_pixel(x, y, pixel);
            let ghost placed = image@;
            proof {
                lemma_put_changes_one(before, here, pixel);
                assert(snapped_with_error_by::<C, D>(
                    palette@,
                    earlier,
                    pixel,
                    error,
                    source,
                    chosen,
                ));
                lemma_snapped_is_covered::<C, D>(palette@, earlier, pixel);
            }
            spread_error(&mut image, error, x, y, taps, base);
            proof {
                lemma_spread_keeps_wf(placed, image@, error, x as int, y as int, taps@, base);
                lemma_spread_keeps_past(placed, image@, error, x as int, y as int, taps@, base);
                assert(stepped_by::<C, D>(
                    palette@,
                    taps@,
                    base,
                    before,
                    image@,
                    x as int,
                    y as int,
                    error,
                    placed,
                ));
                let next: nat = (x + 1) as nat;
                let row: nat = y as nat;
                assert(stepped::<C, D>(palette@, taps@, base, before, image@, next - 1, row as int));
            }
            x += 1;
        }
        proof {
            assert(start.position(0, y + 1) == start.position(x as int, y as int))
                by (nonlinear_arith)
                requires
                    x == start.width,
            ;
        }
        y += 1;
    }
    proof {
        assert(start.position(0, y as int) == start.area()) by (nonlinear_arith)
            requires
                y == start.height,
        ;
    }
    image
}

/// A neighbour that comes after a pixel in its row or in a later row comes
/// after it in raster order.
pub proof fn lemma_forward_neighbor_is_later(grid: Grid, x: int, y: int, tap: Tap)
    requires
        grid.holds(x, y),
        tap.forward(),
        neighbor(grid, x, y, tap.dx as int, tap.dy as int) is Some,
    ensures
        grid.position(x, y) < neighbor(grid, x, y, tap.dx as int, tap.dy as int)->0 < grid.area(),
{
    let w = grid.width as int;
    let dy = tap.dy as int;
    lemma_position_in_area(grid, x + tap.dx, y + tap.dy);
    if dy > 0 {
        assert((y + dy) * w >= y * w + w) by (nonlinear_arith)
            requires
                dy >= 1,
                w >= 0,
        ;
    }
}

/// A share that goes forward leaves every pixel up to the one at work as it
/// was, and the alpha channel of every pixel.
pub proof fn lemma_diffused_keeps_past<C: WorkingColor>(
    before: Grid,
    after: Grid,
    error: C,
    x: int,
    y: int,
    tap: Tap,
    base: u8,
)
    requires
        before.holds(x, y),
        tap.forward(),
        diffused(before, after, error, x, y, tap, base),
    ensures
        same_frame(before, after),
        forall|j: int| 0 <= j <= before.position(x, y) ==> after.pixel(j) == before.pixel(j),
        forall|j: int| 0 <= j < before.area() ==> after.pixel(j).alpha == before.pixel(j).alpha,
{
    lemma_position_in_area(before, x, y);
    if neighbor(before, x, y, tap.dx as int, tap.dy as int) is Some {
        lemma_forward_neighbor_is_later(before, x, y, tap);
    }
}

/// Handing the error on along a forward kernel leaves every pixel up to the
/// one at work as it was, and the alpha channel of every pixel.
pub proof fn lemma_spread_keeps_past<C: WorkingColor>(
    before: Grid,
    after: Grid,
    error: C,
    x: int,
    y: int,
    taps: Seq<Tap>,
    base: u8,
)
    requires
        before.holds(x, y),
        all_forward(taps),
        spread(before, after, error, x, y, taps, base),
    ensures
        same_frame(before, after),
        forall|j: int| 0 <= j <= before.position(x, y) ==> after.pixel(j) == before.pixel(j),
        forall|j: int| 0 <= j < before.area() ==> after.pixel(j).alpha == before.pixel(j).alpha,
    decreases taps.len(),
{
    if taps.len() > 0 {
        let mid = choose|mid: Grid|
            spread(before, mid, error, x, y, taps.drop_last(), base) && #[trigger] diffused(
                mid,
                after,
                error,
                x,
                y,
                taps.last(),
                base,
            );
        assert(all_forward(taps.drop_last())) by {
            assert forall|t: int| 0 <= t < taps.drop_last().len() implies (
            #[trigger] taps.drop_last()[t]).forward() by {}
        }
        lemma_spread_keeps_past(before, mid, error, x, y, taps.drop_last(), base);
        lemma_diffused_keeps_past(mid, after, error, x, y, taps.last(), base);
    }
}

/// Handing the error on never changes the size of the grid nor a sample
/// behind its last pixel, whatever the kernel.
pub proof fn lemma_spread_keeps_frame<C: WorkingColor>(
    before: Grid,
    after: Grid,
    error: C,
    x: int,
    y: int,
    taps: Seq<Tap>,
    base: u8,
)
    requires
        spread(before, after, error, x, y, taps, base),
    ensures
        same_frame(before, after),
    decreases taps.len(),
{
    if taps.len() > 0 {
        let mid = choose|mid: Grid|
            spread(before, mid, error, x, y, taps.drop_last(), base) && #[trigger] diffused(
                mid,
                after,
                error,
                x,
                y,
                taps.last(),
                base,
            );
        lemma_spread_keeps_frame(before, mid, error, x, y, taps.drop_last(), base);
    }
}

/// A share of the error leaves a grid that holds every pixel.
pub proof fn lemma_diffused_keeps_wf<C: WorkingColor>(
    before: Grid,
    after: Grid,
    error: C,
    x: int,
    y: int,
    tap: Tap,
    base: u8,
)
    requires
        before.wf(),
        diffused(before, after, error, x, y, tap, base),
    ensures
        after.wf(),
{
}

/// Handing the error on leaves a grid that holds every pixel.
pub proof fn lemma_spread_keeps_wf<C: WorkingColor>(
    before: Grid,
    after: Grid,
    error: C,
    x: int,
    y: int,
    taps: Seq<Tap>,
    base: u8,
)
    requires
        before.wf(),
        spread(before, after, error, x, y, taps, base),
    ensures
        after.wf(),
    decreases taps.len(),
{
    if taps.len() > 0 {
        let mid = choose|mid: Grid|
            spread(before, mid, error, x, y, taps.drop_last(), base) && #[trigger] diffused(
                mid,
                after,
                error,
                x,
                y,
                taps.last(),
                base,
            );
        lemma_spread_keeps_wf(before, mid, error, x, y, taps.drop_last(), base);
        lemma_diffused_keeps_wf(mid, after, error, x, y, taps.last(), base);
    }
}

/// The step of one pixel leaves a grid that holds every pixel.
pub proof fn lemma_stepped_keeps_wf<C: WorkingColor, D: Difference<C>>(
    palette: Seq<C>,
    taps: Seq<Tap>,
    base: u8,
    before: Grid,
    after: Grid,
    x: int,
    y: int,
)
    requires
        before.wf(),
        stepped::<C, D>(palette, taps, base, before, after, x, y),
    ensures
        after.wf(),
        after.width == before.width,
        after.height == before.height,
{
    let (error, placed) = choose|error: C, placed: Grid|
        stepped_by::<C, D>(palette, taps, base, before, after, x, y, error, placed);
    lemma_spread_keeps_wf(placed, after, error, x, y, taps, base);
    lemma_spread_keeps_frame(placed, after, error, x, y, taps, base);
}

/// A sweep leaves a grid of the same size that holds every pixel.
pub proof fn lemma_swept_keeps_wf<C: WorkingColor, D: Difference<C>>(
    palette: Seq<C>,
    taps: Seq<Tap>,
    base: u8,
    start: Grid,
    now: Grid,
    x: nat,
    y: nat,
)
    requires
        start.wf(),
        swept::<C, D>(palette, taps, base, start, now, x, y),
    ensures
        now.wf(),
        now.width == start.width,
        now.height == start.height,
    decreases y, x,
{
    if x > 0 {
        let mid = choose|mid: Grid|
            swept::<C, D>(palette, taps, base, start, mid, (x - 1) as nat, y)
                && #[trigger] stepped::<C, D>(palette, taps, base, mid, now, x - 1, y as int);
        lemma_swept_keeps_wf::<C, D>(palette, taps, base, start, mid, (x - 1) as nat, y);
        lemma_stepped_keeps_wf::<C, D>(palette, taps, base, mid, now, x - 1, y as int);
    } else if y > 0 {
        lemma_swept_keeps_wf::<C, D>(palette, taps, base, start, now, start.width, (y - 1) as nat);
    }
}

/// Where the grid holds none of the neighbours of a kernel, handing the
/// error on changes nothing: every share is dropped.
pub proof fn lemma_spread_without_neighbors<C: WorkingColor>(
    before: Grid,
    after: Grid,
    error: C,
    x: int,
    y: int,
    taps: Seq<Tap>,
    base: u8,
)
    requires
        forall|t: int|
            0 <= t < taps.len() ==> neighbor(
                before,
                x,
                y,
                (#[trigger] taps[t]).dx as int,
                taps[t].dy as int,
            ) is None,
        spread(before, after, error, x, y, taps, base),
    ensures
        after == before,
    decreases taps.len(),
{
    if taps.len() > 0 {
        let mid = choose|mid: Grid|
            spread(before, mid, error, x, y, taps.drop_last(), base) && #[trigger] diffused(
                mid,
                after,
                error,
                x,
                y,
                taps.last(),
                base,
            );
        assert forall|t: int| 0 <= t < taps.drop_last().len() implies neighbor(
            before,
            x,
            y,
            (#[trigger] taps.drop_last()[t]).dx as int,
            taps.drop_last()[t].dy as int,
        ) is None by {}
        lemma_spread_without_neighbors(before, mid, error, x, y, taps.drop_last(), base);
    }
}

/// On a raster of one pixel, error diffusion along a forward kernel does
/// what thresholding does: there is no neighbour to hand the error to.
pub proof fn lemma_single_pixel_sweep_is_threshold<C: WorkingColor, D: Difference<C>>(
    palette: Seq<C>,
    taps: Seq<Tap>,
    base: u8,
    before: Grid,
    after: Grid,
)
    requires
        before.width == 1,
        before.height == 1,
        all_forward(taps),
        swept::<C, D>(palette, taps, base, before, after, 0, 1),
    ensures
        thresholded::<C, D>(before, after, palette),
{
    reveal_with_fuel(swept, 3);
    let mid = choose|mid: Grid|
        swept::<C, D>(palette, taps, base, before, mid, 0, 0) && #[trigger] stepped::<C, D>(
            palette,
            taps,
            base,
            mid,
            after,
            0,
            0,
        );
    let (error, placed) = choose|error: C, placed: Grid|
        stepped_by::<C, D>(palette, taps, base, before, after, 0, 0, error, placed);
    assert forall|t: int| 0 <= t < taps.len() implies neighbor(
        placed,
        0,
        0,
        (#[trigger] taps[t]).dx as int,
        taps[t].dy as int,
    ) is None by {}
    lemma_spread_without_neighbors(placed, after, error, 0, 0, taps, base);
    let (source, chosen) = choose|source: C, chosen: C|
        snapped_with_error_by::<C, D>(
            palette,
            before.at(0, 0),
            placed.at(0, 0),
            error,
            source,
            chosen,
        );
    assert(before.area() == 1) by (nonlinear_arith)
        requires
            before.width == 1,
            before.height == 1,
    ;
}

} // verus!
