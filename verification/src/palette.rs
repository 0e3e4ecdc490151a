//! The palette: the colours that a quantised raster may hold, and the search
//! for the one nearest to a target.
use vstd::prelude::*;
use crate::color::{enters, WorkingColor};
use crate::distance::{measures, Difference, Distance};
use crate::pixel::Rgb;

verus! {

/// An ordered collection of working colours, fixed once it is made.
pub struct Palette<C> {
    colors: Vec<C>,
}

impl<C> View for Palette<C> {
    type V = Seq<C>;

    closed spec fn view(&self) -> Seq<C> {
        self.colors@
    }
}

/// `k` is the place of the least of `distances`, and of the earliest such
/// where several are equally small.
pub open spec fn is_first_minimum(distances: Seq<Distance>, k: int) -> bool {
    &&& 0 <= k < distances.len()
    &&& forall|j: int|
        0 <= j < distances.len() ==> distances[k].rank() <= (#[trigger] distances[j]).rank()
    &&& forall|j: int| 0 <= j < k ==> distances[k].rank() < (#[trigger] distances[j]).rank()
}

/// `distances` holds, place by place, what the metric `D` has returned from
/// each of `colors` to `target`.
pub open spec fn measured<C, D: Difference<C>>(
    colors: Seq<C>,
    target: C,
    distances: Seq<Distance>,
) -> bool {
    &&& distances.len() == colors.len()
    &&& forall|j: int|
        0 <= j < colors.len() ==> measures::<C, D>(colors[j], target, #[trigger] distances[j])
}

/// `found` is the colour of `colors` that the metric `D` has put nearest to
/// `target`: the earliest of those at the least distance.
pub open spec fn nearest_of<C, D: Difference<C>>(colors: Seq<C>, target: C, found: C) -> bool {
    exists|distances: Seq<Distance>, k: int|
        #![trigger measured::<C, D>(colors, target, distances), is_first_minimum(distances, k)]
        measured::<C, D>(colors, target, distances) && is_first_minimum(distances, k) && found
            == colors[k]
}

/// The place of the least of `distances`, the earliest where several are
/// equally small; none where there is no distance.
pub fn first_minimum(distances: &Vec<Distance>) -> (place: Option<usize>)
    ensures
        distances@.len() == 0 <==> place is None,
        place matches Some(k) ==> is_first_minimum(distances@, k as int),
{
    if distances.len() == 0 {
        return None;
    }
    let mut best: usize = 0;
    let mut j: usize = 1;
    while j < distances.len()
        invariant
            1 <= j <= distances.len(),
            is_first_minimum(distances@.take(j as int), best as int),
        decreases distances.len() - j,
    {
        if distances[j].precedes(distances[best]) {
            best = j;
        }
        j += 1;
    }
    assert(distances@.take(j as int) =~= distances@);
    Some(best)
}

/// A sequence of distances has one first minimum at most.
pub proof fn lemma_first_minimum_unique(distances: Seq<Distance>, a: int, b: int)
    requires
        is_first_minimum(distances, a),
        is_first_minimum(distances, b),
    ensures
        a == b,
{
    if a < b {
        assert(distances[b].rank() < distances[a].rank());
    } else if b < a {
        assert(distances[a].rank() < distances[b].rank());
    }
}

/// Of two equal distances the later one is never chosen: on a tie the
/// earlier entry wins.
pub proof fn lemma_tie_goes_to_the_earlier(distances: Seq<Distance>, earlier: int, later: int)
    requires
        0 <= earlier < later < distances.len(),
        distances[earlier].rank() == distances[later].rank(),
    ensures
        !is_first_minimum(distances, later),
{
}

/// An entry at distance zero is chosen, the earliest such, whenever no
/// distance is negative.
pub proof fn lemma_zero_distance_wins(distances: Seq<Distance>, place: int, k: int)
    requires
        0 <= place < distances.len(),
        distances[place].bits == 0,
        forall|j: int| 0 <= j < distances.len() ==> (#[trigger] distances[j]).rank() >= 0,
        forall|j: int| 0 <= j < place ==> (#[trigger] distances[j]).bits != 0,
        is_first_minimum(distances, k),
    ensures
        k == place,
{
}

/// The nearest colour is one of the colours.
pub proof fn lemma_nearest_is_member<C, D: Difference<C>>(colors: Seq<C>, target: C, found: C)
    requires
        nearest_of::<C, D>(colors, target, found),
    ensures
        exists|k: int| 0 <= k < colors.len() && found == #[trigger] colors[k],
{
    let (distances, k) = choose|distances: Seq<Distance>, k: int|
        #![trigger measured::<C, D>(colors, target, distances), is_first_minimum(distances, k)]
        measured::<C, D>(colors, target, distances) && is_first_minimum(distances, k) && found
            == colors[k];
}

impl<C> Palette<C> {
    /// The palette of these colours, in this order.
    pub fn new(colors: Vec<C>) -> (palette: Self)
        ensures
            palette@ == colors@,
    {
        Palette { colors }
    }

    /// The number of colours.
    pub fn len(&self) -> (len: usize)
        ensures
            len == self@.len(),
    {
        self.colors.len()
    }

    /// Whether the palette holds no colour.
    pub fn is_empty(&self) -> (empty: bool)
        ensures
            empty == (self@.len() == 0),
    {
        self.colors.len() == 0
    }
}

impl<C: Copy> Palette<C> {
    /// The colour at `place`.
    pub fn color(&self, place: usize) -> (color: C)
        requires
            place < self@.len(),
        ensures
            color == self@[place as int],
    {
        self.colors[place]
    }

    /// The distance from each colour of the palette to `target`, in the order
    /// of the palette.
    pub fn distances<D: Difference<C>>(&self, target: C) -> (distances: Vec<Distance>)
        ensures
            measured::<C, D>(self@, target, distances@),
    {
        let mut distances: Vec<Distance> = Vec::with_capacity(self.colors.len());
        let mut j: usize = 0;
        while j < self.colors.len()
            invariant
                j <= self.colors.len(),
                measured::<C, D>(self.colors@.take(j as int), target, distances@),
            decreases self.colors.len() - j,
        {
            let distance = D::diff(self.colors[j], target);
            distances.push(distance);
            j += 1;
        }
        distances
    }

    /// The colour of the palette nearest to `target` under the metric `D`;
    /// of several equally near, the one that was given first.
    ///
    /// The palette is walked once, from the first colour to the last. A
    /// colour takes the place of the best so far only where it is strictly
    /// nearer.
    pub fn nearest<D: Difference<C>>(&self, target: C) -> (found: C)
        requires
            self@.len() > 0,
        ensures
            nearest_of::<C, D>(self@, target, found),
    {
        let mut best: usize = 0;
        let mut least = D::diff(self.colors[0], target);
        let ghost mut seen: Seq<Distance> = seq![least];
        let mut j: usize = 1;
        while j < self.colors.len()
            invariant
                1 <= j <= self.colors.len(),
                best < j,
                least == seen[best as int],
                measured::<C, D>(self.colors@.take(j as int), target, seen),
                is_first_minimum(seen, best as int),
            decreases self.colors.len() - j,
        {
            let distance = D::diff(self.colors[j], target);
            proof {
                seen = seen.push(distance);
            }
            if distance.precedes(least) {
                best = j;
                least = distance;
            }
            j += 1;
        }
        proof {
            assert(measured::<C, D>(self@, target, seen) && is_first_minimum(seen, best as int));
        }
        self.colors[best]
    }
}

impl<C: WorkingColor> Palette<C> {
    /// The palette of these device colours, each taken into the working
    /// space, in this order.
    pub fn from_device(colors: &Vec<Rgb>) -> (palette: Self)
        ensures
            palette@.len() == colors@.len(),
            forall|j: int| 0 <= j < colors@.len() ==> enters(colors@[j], #[trigger] palette@[j]),
    {
        let mut working: Vec<C> = Vec::with_capacity(colors.len());
        let mut j: usize = 0;
        while j < colors.len()
            invariant
                j <= colors.len(),
                working@.len() == j,
                forall|i: int| 0 <= i < j ==> enters(colors@[i], #[trigger] working@[i]),
            decreases colors.len() - j,
        {
            let color = C::to_space(colors[j]);
            working.push(color);
            j += 1;
        }
        Palette { colors: working }
    }
}

} // verus!
