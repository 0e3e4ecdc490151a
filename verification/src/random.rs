//! The random algorithm and its generator.
//!
//! One generator serves the whole raster. It is drawn from once for each
//! pixel, pixel by pixel in raster order, and each draw finds it in the
//! state in which the draw before has left it. Where drawing is a function
//! of that state, two runs from one state end in one raster.
use vstd::prelude::*;
use crate::color::{pixel_to_color, seeded_generator, update_pixel_with_color, WorkingColor};
use crate::determinism::{
    lemma_grids_agree, lemma_nearest_is_unique, metric_is_function, space_is_function,
};
use crate::distance::Difference;
use crate::dither::{
    lemma_randomized_is_reduced, randomized, reduced, shaken, shaken_by, RANDOM_RADIUS,
    RANDOM_SEED,
};
use crate::palette::Palette;
use crate::pixel::Pixel;
use crate::raster::{lemma_position_in_area, lemma_put_changes_one, same_frame, Grid, Raster};

verus! {

/// `q` is `p` with its colour replaced by the device colour of the palette
/// entry nearest to the sum of its colour and `offset`.
pub open spec fn shaken_with<C: WorkingColor, D: Difference<C>>(
    palette: Seq<C>,
    p: Pixel,
    q: Pixel,
    offset: C,
) -> bool {
    exists|source: C, moved: C, chosen: C|
        shaken_by::<C, D>(palette, p, q, source, offset, moved, chosen)
}

/// Replaces each pixel by the palette entry nearest to it after the offset
/// that `noise` draws for it from `rng` was added to its colour.
///
/// The pixels are visited row by row from the top, each row from the left.
/// `states` is what the generator went through: it starts as the caller
/// hands it over, the draw for pixel `i` takes it from `states[i]` to
/// `states[i + 1]`, and it goes back to the caller as the last draw has left
/// it. `draws[i]` is the borrow of the generator that `noise` was given for
/// pixel `i`, and `offsets[i]` is what it returned.
pub fn shake<C: WorkingColor, D: Difference<C>>(
    image: Raster,
    palette: &Palette<C>,
    rng: &mut rand::rngs::SmallRng,
) -> (out: Raster)
    requires
        image@.area() > 0 ==> palette@.len() > 0,
    ensures
        randomized::<C, D>(image@, out@, palette@),
        reduced(image@, out@, palette@),
        exists|
            states: Seq<rand::rngs::SmallRng>,
            draws: Seq<&mut rand::rngs::SmallRng>,
            offsets: Seq<C>,
        |
            #![trigger states.len(), draws.len(), offsets.len()]
            {
                &&& states.len() == image@.area() + 1
                &&& draws.len() == image@.area()
                &&& offsets.len() == image@.area()
                &&& states[0] == *old(rng)
                &&& states[image@.area() as int] == *final(rng)
                &&& forall|i: int|
                    0 <= i < image@.area() ==> #[trigger] shaken_with::<C, D>(
                        palette@,
                        image@.pixel(i),
                        out@.pixel(i),
                        offsets[i],
                    ) && *draws[i] == states[i] && *final(draws[i]) == states[i + 1]
                        && call_ensures(C::noise, (draws[i], RANDOM_RADIUS), offsets[i])
            },
{
    let ghost start = image@;
    let ghost first = *rng;
    let mut image = image;
    let ghost mut states: Seq<rand::rngs::SmallRng> = seq![first];
    let ghost mut offsets: Seq<C> = Seq::empty();
    let (width, height) = image.dimensions();
    assert(Seq::<&mut rand::rngs::SmallRng>::empty().len() == 0);
    let mut y: u32 = 0;
    while y < height
        invariant
            y <= height,
            width == start.width,
            height == start.height,
            start.wf(),
            image@.wf(),
            same_frame(start, image@),
            start.area() > 0 ==> palette@.len() > 0,
            states.len() == start.position(0, y as int) + 1,
            offsets.len() == start.position(0, y as int),
            states[0] == first,
            states[start.position(0, y as int)] == *rng,
            forall|j: int|
                0 <= j < start.position(0, y as int) ==> shaken::<C, D>(
                    palette@,
                    start.pixel(j),
                    #[trigger] image@.pixel(j),
                ),
            forall|j: int|
                start.position(0, y as int) <= j < start.area() ==> image@.pixel(j) == start.pixel(
                    j,
                ),
            exists|draws: Seq<&mut rand::rngs::SmallRng>|
                #![trigger draws.len()]
                draws.len() == start.position(0, y as int) && forall|i: int|
                    0 <= i < start.position(0, y as int) ==> #[trigger] shaken_with::<C, D>(
                        palette@,
                        start.pixel(i),
                        image@.pixel(i),
                        offsets[i],
                    ) && *draws[i] == states[i] && *final(draws[i]) == states[i + 1]
                        && call_ensures(C::noise, (draws[i], RANDOM_RADIUS), offsets[i]),
        decreases height - y,
    {
        let mut x: u32 = 0;
        while x < width
            invariant
                x <= width,
                y < height,
                width == start.width,
                height == start.height,
                start.wf(),
                image@.wf(),
                same_frame(start, image@),
                start.area() > 0 ==> palette@.len() > 0,
                states.len() == start.position(x as int, y as int) + 1,
                offsets.len() == start.position(x as int, y as int),
                states[0] == first,
                states[start.position(x as int, y as int)] == *rng,
                forall|j: int|
                    0 <= j < start.position(x as int, y as int) ==> shaken::<C, D>(
                        palette@,
                        start.pixel(j),
                        #[trigger] image@.pixel(j),
                    ),
                forall|j: int|
                    start.position(x as int, y as int) <= j < start.area() ==> image@.pixel(j)
                        == start.pixel(j),
                exists|draws: Seq<&mut rand::rngs::SmallRng>|
                    #![trigger draws.len()]
                    draws.len() == start.position(x as int, y as int) && forall|i: int|
                        0 <= i < start.position(x as int, y as int) ==> #[trigger] shaken_with::<
                            C,
                            D,
                        >(palette@, start.pixel(i), image@.pixel(i), offsets[i]) && *draws[i]
                            == states[i] && *final(draws[i]) == states[i + 1] && call_ensures(
                            C::noise,
                            (draws[i], RANDOM_RADIUS),
                            offsets[i],
                        ),
            decreases width - x,
        {
            let ghost before = image@;
            let ghost here = before.position(x as int, y as int);
            let ghost lent = choose|draws: Seq<&mut rand::rngs::SmallRng>|
                #![trigger draws.len()]
                draws.len() == here && forall|i: int|
                    0 <= i < here ==> #[trigger] shaken_with::<C, D>(
                        palette@,
                        start.pixel(i),
                        before.pixel(i),
                        offsets[i],
                    ) && *draws[i] == states[i] && *final(draws[i]) == states[i + 1]
                        && call_ensures(C::noise, (draws[i], RANDOM_RADIUS), offsets[i]);
            let ghost drawn = offsets;
            proof {
                lemma_position_in_area(before, x as int, y as int);
            }
            let mut pixel = image.get_pixel(x, y);
            let ghost earlier = pixel;
            let source: C = pixel_to_color(pixel);
            let ghost found = *rng;
            let offset = C::noise(rng, RANDOM_RADIUS);
            let ghost left = *rng;
            let ghost draw = choose|r: &mut rand::rngs::SmallRng|
                #![trigger call_ensures(C::noise, (r, RANDOM_RADIUS), offset)]
                *r == found && *final(r) == left && call_ensures(
                    C::noise,
                    (r, RANDOM_RADIUS),
                    offset,
                );
            let moved = source.plus(offset);
            let chosen = palette.nearest::<D>(moved);
            update_pixel_with_color(&mut pixel, chosen);
            image.put_pixel(x, y, pixel);
            proof {
                lemma_put_changes_one(before, here, pixel);
                assert(shaken_by::<C, D>(palette@, earlier, pixel, source, offset, moved, chosen));
                states = states.push(left);
                offsets = offsets.push(offset);
                let next = lent.push(draw);
                assert(next.len() == here + 1);
                assert forall|i: int| 0 <= i < here + 1 implies #[trigger] shaken_with::<C, D>(
                    palette@,
                    start.pixel(i),
                    image@.pixel(i),
                    offsets[i],
                ) && *next[i] == states[i] && *final(next[i]) == states[i + 1] && call_ensures(
                    C::noise,
                    (next[i], RANDOM_RADIUS),
                    offsets[i],
                ) by {
                    if i < here {
                        assert(image@.pixel(i) == before.pixel(i));
                        assert(shaken_with::<C, D>(
                            palette@,
                            start.pixel(i),
                            before.pixel(i),
                            drawn[i],
                        ));
                    }
                }
            }
            x += 1;
        }
        proof {
            assert(start.position(0, y + 1) == start.position(x as int, y as int))
                by (nonlinear_arith)
                requires
                    x == start.width,
            ;
        }
        y += 1;
    }
    proof {
        assert(start.position(0, y as int) == start.area()) by (nonlinear_arith)
            requires
                y == start.height,
        ;
        lemma_randomized_is_reduced::<C, D>(start, image@, palette@);
    }
    image
}

/// The random algorithm: `shake` with a generator that is started from the
/// seed of the algorithm and dropped at the end, so that nothing of one run
/// reaches the next. `states[0]` is the state in which the generator starts;
/// the `rand` crate fixes it for a seed on one machine and in one version
/// only, so it has no name here.
pub fn randomize<C: WorkingColor, D: Difference<C>>(
    image: Raster,
    palette: &Palette<C>,
) -> (out: Raster)
    requires
        image@.area() > 0 ==> palette@.len() > 0,
    ensures
        randomized::<C, D>(image@, out@, palette@),
        reduced(image@, out@, palette@),
        exists|
            states: Seq<rand::rngs::SmallRng>,
            draws: Seq<&mut rand::rngs::SmallRng>,
            offsets: Seq<C>,
        |
            #![trigger states.len(), draws.len(), offsets.len()]
            {
                &&& states.len() == image@.area() + 1
                &&& draws.len() == image@.area()
                &&& offsets.len() == image@.area()
                &&& forall|i: int|
                    0 <= i < image@.area() ==> #[trigger] shaken_with::<C, D>(
                        palette@,
                        image@.pixel(i),
                        out@.pixel(i),
                        offsets[i],
                    ) && *draws[i] == states[i] && *final(draws[i]) == states[i + 1]
                        && call_ensures(C::noise, (draws[i], RANDOM_RADIUS), offsets[i])
            },
{
    let mut rng = seeded_generator(RANDOM_SEED);
    shake::<C, D>(image, palette, &mut rng)
}

/// Where `noise` is a function of the state of the generator and the
/// radius, two series of draws that start from one state go through the
/// same states and draw the same offsets.
pub proof fn lemma_draws_agree<C: WorkingColor>(
    states_a: Seq<rand::rngs::SmallRng>,
    draws_a: Seq<&mut rand::rngs::SmallRng>,
    offsets_a: Seq<C>,
    states_b: Seq<rand::rngs::SmallRng>,
    draws_b: Seq<&mut rand::rngs::SmallRng>,
    offsets_b: Seq<C>,
    count: int,
    k: int,
)
    requires
        0 <= k <= count,
        states_a[0] == states_b[0],
        forall|r1: &mut rand::rngs::SmallRng, r2: &mut rand::rngs::SmallRng, x: C, y: C|
            #![trigger
                call_ensures(C::noise, (r1, RANDOM_RADIUS), x),
                call_ensures(C::noise, (r2, RANDOM_RADIUS), y),
            ]
            *r1 == *r2 && call_ensures(C::noise, (r1, RANDOM_RADIUS), x) && call_ensures(
                C::noise,
                (r2, RANDOM_RADIUS),
                y,
            ) ==> x == y && *final(r1) == *final(r2),
        forall|i: int|
            0 <= i < count ==> *(#[trigger] draws_a[i]) == states_a[i] && *final(draws_a[i])
                == states_a[i + 1] && call_ensures(
                C::noise,
                (draws_a[i], RANDOM_RADIUS),
                offsets_a[i],
            ),
        forall|i: int|
            0 <= i < count ==> *(#[trigger] draws_b[i]) == states_b[i] && *final(draws_b[i])
                == states_b[i + 1] && call_ensures(
                C::noise,
                (draws_b[i], RANDOM_RADIUS),
                offsets_b[i],
            ),
    ensures
        states_a[k] == states_b[k],
        k > 0 ==> offsets_a[k - 1] == offsets_b[k - 1],
    decreases k,
{
    if k > 0 {
        lemma_draws_agree(
            states_a,
            draws_a,
            offsets_a,
            states_b,
            draws_b,
            offsets_b,
            count,
            k - 1,
        );
        assert(*draws_a[k - 1] == states_a[k - 1]);
        assert(*draws_b[k - 1] == states_b[k - 1]);
    }
}

/// With one offset, a pixel is shaken to one pixel, where the colour space
/// and the metric are functions.
pub proof fn lemma_shaken_is_unique<C: WorkingColor, D: Difference<C>>(
    palette: Seq<C>,
    p: Pixel,
    a: Pixel,
    b: Pixel,
    offset: C,
)
    requires
        space_is_function::<C>(),
        metric_is_function::<C, D>(),
        shaken_with::<C, D>(palette, p, a, offset),
        shaken_with::<C, D>(palette, p, b, offset),
    ensures
        a == b,
{
    let (sa, ma, ca) = choose|source: C, moved: C, chosen: C|
        shaken_by::<C, D>(palette, p, a, source, offset, moved, chosen);
    let (sb, mb, cb) = choose|source: C, moved: C, chosen: C|
        shaken_by::<C, D>(palette, p, b, source, offset, moved, chosen);
    assert(sa == sb && ma == mb);
    lemma_nearest_is_unique::<C, D>(palette, ma, ca, cb);
    assert(a.color() == b.color());
}

/// Two runs of the random algorithm on one raster with one palette, from
/// one state of the generator, end in one raster and leave the generator in
/// one state, where `noise`, the colour space and the metric are functions.
pub proof fn lemma_shake_is_unique<C: WorkingColor, D: Difference<C>>(
    palette: Seq<C>,
    before: Grid,
    a: Grid,
    states_a: Seq<rand::rngs::SmallRng>,
    draws_a: Seq<&mut rand::rngs::SmallRng>,
    offsets_a: Seq<C>,
    b: Grid,
    states_b: Seq<rand::rngs::SmallRng>,
    draws_b: Seq<&mut rand::rngs::SmallRng>,
    offsets_b: Seq<C>,
)
    requires
        before.wf(),
        space_is_function::<C>(),
        metric_is_function::<C, D>(),
        forall|r1: &mut rand::rngs::SmallRng, r2: &mut rand::rngs::SmallRng, x: C, y: C|
            #![trigger
                call_ensures(C::noise, (r1, RANDOM_RADIUS), x),
                call_ensures(C::noise, (r2, RANDOM_RADIUS), y),
            ]
            *r1 == *r2 && call_ensures(C::noise, (r1, RANDOM_RADIUS), x) && call_ensures(
                C::noise,
                (r2, RANDOM_RADIUS),
                y,
            ) ==> x == y && *final(r1) == *final(r2),
        states_a[0] == states_b[0],
        same_frame(before, a),
        same_frame(before, b),
        forall|i: int|
            0 <= i < before.area() ==> #[trigger] shaken_with::<C, D>(
                palette,
                before.pixel(i),
                a.pixel(i),
                offsets_a[i],
            ) && *draws_a[i] == states_a[i] && *final(draws_a[i]) == states_a[i + 1]
                && call_ensures(C::noise, (draws_a[i], RANDOM_RADIUS), offsets_a[i]),
        forall|i: int|
            0 <= i < before.area() ==> #[trigger] shaken_with::<C, D>(
                palette,
                before.pixel(i),
                b.pixel(i),
                offsets_b[i],
            ) && *draws_b[i] == states_b[i] && *final(draws_b[i]) == states_b[i + 1]
                && call_ensures(C::noise, (draws_b[i], RANDOM_RADIUS), offsets_b[i]),
    ensures
        a == b,
        states_a[before.area() as int] == states_b[before.area() as int],
{
    let count = before.area() as int;
    assert forall|i: int| 0 <= i < count implies *(#[trigger] draws_a[i]) == states_a[i]
        && *final(draws_a[i]) == states_a[i + 1] && call_ensures(
        C::noise,
        (draws_a[i], RANDOM_RADIUS),
        offsets_a[i],
    ) by {
        assert(shaken_with::<C, D>(palette, before.pixel(i), a.pixel(i), offsets_a[i]));
    }
    assert forall|i: int| 0 <= i < count implies *(#[trigger] draws_b[i]) == states_b[i]
        && *final(draws_b[i]) == states_b[i + 1] && call_ensures(
        C::noise,
        (draws_b[i], RANDOM_RADIUS),
        offsets_b[i],
    ) by {
        assert(shaken_with::<C, D>(palette, before.pixel(i), b.pixel(i), offsets_b[i]));
    }
    assert forall|i: int| 0 <= i < count implies a.pixel(i) == b.pixel(i) by {
        lemma_draws_agree(
            states_a,
            draws_a,
            offsets_a,
            states_b,
            draws_b,
            offsets_b,
            count,
            i + 1,
        );
        assert(shaken_with::<C, D>(palette, before.pixel(i), a.pixel(i), offsets_a[i]));
        assert(shaken_with::<C, D>(palette, before.pixel(i), b.pixel(i), offsets_b[i]));
        lemma_shaken_is_unique::<C, D>(
            palette,
            before.pixel(i),
            a.pixel(i),
            b.pixel(i),
            offsets_a[i],
        );
    }
    lemma_grids_agree(before, a, b);
    lemma_draws_agree(states_a, draws_a, offsets_a, states_b, draws_b, offsets_b, count, count);
}

} // verus!
