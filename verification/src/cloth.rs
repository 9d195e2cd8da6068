//! The cloth: its particles, as the grid fixes them, and the constraints that
//! have not been torn or cut.

use vstd::prelude::*;
use crate::builder::{build_particles, build_springs};
use crate::particle::{corrected, dragged, integrated, is_grid_store, placed, sits_at, Particle};
use crate::remainder::{
    drawn_from, kept_positions, lemma_kept_positions, lemma_remains_chain,
    lemma_remains_contained, lemma_remains_whole, lemma_surviving_drawn, remains_of, stays,
    surviving, surviving_prefix,
};
use crate::spring::{models, Spring, SpringModel};
use crate::topology::{
    cell_index, column_of, grid_springs, lemma_cell_split, lemma_grid_pairs_distinct,
    lemma_grid_spring_origin, lemma_spring_shape, row_of, same_pair, starts_at,
};

verus! {

/// The mathematical content of a [`Cloth`].
pub struct ClothModel<V> {
    /// Number of columns of the grid.
    pub width: int,
    /// Number of rows of the grid.
    pub height: int,
    /// The particles, row by row.
    pub particles: Seq<Particle<V>>,
    /// The live constraints, in the order in which they are relaxed.
    pub springs: Seq<SpringModel>,
}

/// What holds of every cloth: the grid has at least two columns and two rows,
/// the particles are those of the grid, and the live constraints are what is
/// left of the constraints of the grid, in their first order.
pub open spec fn valid<V>(cloth: ClothModel<V>) -> bool {
    &&& 2 <= cloth.width
    &&& 2 <= cloth.height
    &&& is_grid_store(cloth.particles, cloth.width, cloth.height)
    &&& remains_of(cloth.springs, grid_springs(cloth.width, cloth.height))
}

/// A rectangular cloth. It owns the particle store and the live constraints.
/// Constraints only ever leave; a new cloth is the only way to get them back.
pub struct Cloth<V> {
    particles: Vec<Particle<V>>,
    springs: Vec<Spring>,
    width: usize,
    height: usize,
}

impl<V> View for Cloth<V> {
    type V = ClothModel<V>;

    closed spec fn view(&self) -> ClothModel<V> {
        ClothModel {
            width: self.width as int,
            height: self.height as int,
            particles: self.particles@,
            springs: models(self.springs@),
        }
    }
}

/// Whether `particle` is the particle with index `i` of a fresh cloth of
/// `width` columns: at rest where `place` puts the particle of its cell,
/// asked with the column and the row.
pub open spec fn placement<V, F: Fn(usize, usize) -> V>(
    place: F,
    width: int,
    i: int,
    particle: Particle<V>,
) -> bool {
    &&& call_ensures(
        place,
        (column_of(width, i) as usize, row_of(width, i) as usize),
        particle.pos,
    )
    &&& particle == placed(particle.pos, width, i)
}

/// Whether `cloth` is a fresh cloth of `width` columns and `height` rows:
/// the particles of the grid, row by row, each at rest where `place` puts
/// it, the top row pinned; and all constraints of the grid.
pub open spec fn fresh<V, F: Fn(usize, usize) -> V>(
    place: F,
    width: int,
    height: int,
    cloth: ClothModel<V>,
) -> bool {
    &&& cloth.width == width
    &&& cloth.height == height
    &&& cloth.particles.len() == width * height
    &&& forall|i: int|
        0 <= i < cloth.particles.len() ==> placement(place, width, i, #[trigger] cloth.particles[i])
    &&& cloth.springs == grid_springs(width, height)
}

impl<V: Copy> Cloth<V> {
    /// Whether the cloth is in order. Every cloth that this module hands out
    /// is, and stays so.
    pub open spec fn wf(&self) -> bool {
        valid(self@)
    }

    /// A fresh cloth of `width` columns and `height` rows: see [`fresh`].
    ///
    /// A grid needs two columns and two rows at least, and its cells must be
    /// countable in a `usize`.
    pub fn new<F: Fn(usize, usize) -> V>(width: usize, height: usize, place: &F) -> (cloth: Cloth<
        V,
    >)
        requires
            2 <= width,
            2 <= height,
            width * height <= usize::MAX,
            forall|column: usize, row: usize| call_requires(*place, (column, row)),
        ensures
            cloth.wf(),
            fresh(*place, width as int, height as int, cloth@),
    {
        let particles = build_particles(width, height, place);
        let springs = build_springs(width, height);
        proof {
            lemma_remains_whole(models(springs@));
            assert forall|i: int| 0 <= i < particles@.len() implies sits_at(
                #[trigger] particles@[i],
                width as int,
                i,
            ) by {
                lemma_cell_split(width as int, height as int, i);
            }
        }
        Cloth { particles, springs, width, height }
    }

    /// Number of columns of the grid.
    pub fn width(&self) -> (width: usize)
        ensures
            width == self@.width,
    {
        self.width
    }

    /// Number of rows of the grid.
    pub fn height(&self) -> (height: usize)
        ensures
            height == self@.height,
    {
        self.height
    }

    /// Whether the cloth was made for a grid of `width` columns and `height`
    /// rows. A cloth that was not has to be replaced by a fresh one.
    pub fn has_dimensions(&self, width: usize, height: usize) -> (same: bool)
        ensures
            same == (self@.width == width && self@.height == height),
    {
        self.width == width && self.height == height
    }

    /// Number of particles.
    pub fn particle_count(&self) -> (count: usize)
        ensures
            count == self@.particles.len(),
    {
        self.particles.len()
    }

    /// Number of live constraints.
    pub fn spring_count(&self) -> (count: usize)
        ensures
            count == self@.springs.len(),
    {
        self.springs.len()
    }

    /// The particle with index `i`.
    pub fn particle(&self, i: usize) -> (particle: Particle<V>)
        requires
            i < self@.particles.len(),
        ensures
            particle == self@.particles[i as int],
    {
        self.particles[i]
    }

    /// Whether the particle with index `i` is pinned: whether it belongs to
    /// the top row.
    pub fn is_pinned(&self, i: usize) -> (pinned: bool)
        requires
            self.wf(),
            i < self@.particles.len(),
        ensures
            pinned == self@.particles[i as int].is_pinned,
            pinned == (i < self@.width),
    {
        proof {
            lemma_pinned_top_row(self@, i as int);
        }
        self.particles[i].is_pinned
    }

    /// The `k`-th live constraint. Its endpoints are two different particles
    /// of the cloth.
    pub fn spring(&self, k: usize) -> (spring: Spring)
        requires
            self.wf(),
            k < self@.springs.len(),
        ensures
            spring@ == self@.springs[k as int],
            spring.p1_idx < spring.p2_idx < self@.particles.len(),
    {
        proof {
            lemma_live_spring_shape(self@, k as int);
        }
        self.springs[k]
    }

    /// An integration step of the particle with index `i`, which would take
    /// it to `next`: see [`integrated`]. A pinned particle stays.
    pub fn integrate(&mut self, i: usize, next: V)
        requires
            old(self).wf(),
            i < old(self)@.particles.len(),
        ensures
            final(self).wf(),
            final(self)@ == (ClothModel {
                particles: old(self)@.particles.update(
                    i as int,
                    integrated(old(self)@.particles[i as int], next),
                ),
                ..old(self)@
            }),
    {
        let after = self.particles[i].integrate(next);
        self.particles.set(i, after);
    }

    /// A correction of the `k`-th live constraint, which would take its first
    /// endpoint to `first` and its second to `second`: see [`corrected`]. A
    /// pinned endpoint stays.
    pub fn correct(&mut self, k: usize, first: V, second: V)
        requires
            old(self).wf(),
            k < old(self)@.springs.len(),
        ensures
            final(self).wf(),
            final(self)@ == (ClothModel {
                particles: after_correction(old(self)@, k as int, first, second),
                ..old(self)@
            }),
    {
        proof {
            lemma_live_spring_shape(self@, k as int);
        }
        let spring = self.springs[k];
        let one = self.particles[spring.p1_idx].correct(first);
        self.particles.set(spring.p1_idx, one);
        let other = self.particles[spring.p2_idx].correct(second);
        self.particles.set(spring.p2_idx, other);
    }

    /// The pointer drags the particle with index `i` to `cursor`: see
    /// [`dragged`]. This is the one way to move a pinned particle.
    pub fn drag(&mut self, i: usize, cursor: V)
        requires
            old(self).wf(),
            i < old(self)@.particles.len(),
        ensures
            final(self).wf(),
            final(self)@ == (ClothModel {
                particles: old(self)@.particles.update(
                    i as int,
                    dragged(old(self)@.particles[i as int], cursor),
                ),
                ..old(self)@
            }),
    {
        let after = self.particles[i].drag(cursor);
        self.particles.set(i, after);
    }

    /// What there is to draw of the constraints: for each live constraint, in
    /// order, where its two endpoints are.
    pub fn segments(&self) -> (segments: Vec<(V, V)>)
        requires
            self.wf(),
        ensures
            segments@.len() == self@.springs.len(),
            forall|k: int|
                0 <= k < segments@.len() ==> #[trigger] segments@[k] == segment(self@, k),
    {
        let n = self.springs.len();
        let mut segments: Vec<(V, V)> = Vec::new();
        let mut k: usize = 0;
        while k < n
            invariant
                self.wf(),
                n == self@.springs.len(),
                k <= n,
                segments@.len() == k,
                forall|j: int| 0 <= j < k ==> #[trigger] segments@[j] == segment(self@, j),
            decreases n - k,
        {
            let spring = self.spring(k);
            segments.push((self.particles[spring.p1_idx].pos, self.particles[spring.p2_idx].pos));
            k += 1;
        }
        segments
    }

    /// What there is to draw of the particles: for each particle, in order,
    /// where it is and whether it is pinned.
    pub fn points(&self) -> (points: Vec<(V, bool)>)
        ensures
            points@.len() == self@.particles.len(),
            forall|i: int|
                0 <= i < points@.len() ==> #[trigger] points@[i] == (
                    self@.particles[i].pos,
                    self@.particles[i].is_pinned,
                ),
    {
        let n = self.particles.len();
        let mut points: Vec<(V, bool)> = Vec::new();
        let mut i: usize = 0;
        while i < n
            invariant
                n == self@.particles.len(),
                i <= n,
                points@.len() == i,
                forall|j: int|
                    0 <= j < i ==> #[trigger] points@[j] == (
                        self@.particles[j].pos,
                        self@.particles[j].is_pinned,
                    ),
            decreases n - i,
        {
            points.push((self.particles[i].pos, self.particles[i].is_pinned));
            i += 1;
        }
        points
    }

    /// Takes constraints out for good: the `k`-th live constraint leaves if
    /// `keep` has a `k`-th flag and that flag is `false`. The others stay, in
    /// their order. Tearing and cutting both end here.
    pub fn retain_springs(&mut self, keep: &Vec<bool>)
        requires
            old(self).wf(),
        ensures
            final(self).wf(),
            final(self)@ == (ClothModel {
                springs: surviving(old(self)@.springs, keep@),
                ..old(self)@
            }),
    {
        let n = self.springs.len();
        let ghost before = models(self.springs@);
        let mut kept: Vec<Spring> = Vec::new();
        let mut k: usize = 0;
        while k < n
            invariant
                *self == *old(self),
                n == self.springs@.len(),
                before == models(self.springs@),
                k <= n,
                models(kept@) == surviving_prefix(before, keep@, k as int),
            decreases n - k,
        {
            let stay = if k < keep.len() {
                keep[k]
            } else {
                true
            };
            let ghost kept_before = models(kept@);
            if stay {
                kept.push(self.springs[k]);
            }
            proof {
                let positions = kept_positions(keep@, k as int);
                if stay {
                    assert(kept_positions(keep@, k + 1) == positions.push(k as int));
                    assert(models(kept@) == kept_before.push(before[k as int]));
                } else {
                    assert(kept_positions(keep@, k + 1) == positions);
                    assert(models(kept@) == kept_before);
                }
                assert(models(kept@) == surviving_prefix(before, keep@, k + 1));
            }
            k += 1;
        }
        proof {
            lemma_surviving_drawn(before, keep@);
            lemma_remains_chain(
                surviving(before, keep@),
                before,
                grid_springs(self@.width, self@.height),
            );
        }
        self.springs = kept;
    }
}

/// Where the two endpoints of the `k`-th live constraint of `cloth` are.
pub open spec fn segment<V>(cloth: ClothModel<V>, k: int) -> (V, V) {
    let spring = cloth.springs[k];
    (cloth.particles[spring.first].pos, cloth.particles[spring.second].pos)
}

/// The particles after a correction of the `k`-th live constraint of `cloth`
/// that would take its endpoints to `first` and `second`.
pub open spec fn after_correction<V>(cloth: ClothModel<V>, k: int, first: V, second: V) -> Seq<
    Particle<V>,
> {
    let spring = cloth.springs[k];
    let one = cloth.particles.update(spring.first, corrected(cloth.particles[spring.first], first));
    one.update(spring.second, corrected(one[spring.second], second))
}

/// The pinned particles of a cloth are those of the top row: the first
/// `width` of the store.
pub proof fn lemma_pinned_top_row<V>(cloth: ClothModel<V>, i: int)
    requires
        valid(cloth),
        0 <= i < cloth.particles.len(),
    ensures
        cloth.particles[i].is_pinned == (i < cloth.width),
        cloth.particles[i].column < cloth.width,
        cloth.particles[i].row < cloth.height,
        i == cell_index(cloth.width, cloth.particles[i].column as int, cloth.particles[i].row as int),
{
    lemma_cell_split(cloth.width, cloth.height, i);
}

/// Integration and constraint correction leave every pinned particle as it
/// is, whichever particle the step is for and wherever it would take it.
/// Dragging is the one way to move a pinned particle.
pub proof fn lemma_pin_invariant<V>(
    cloth: ClothModel<V>,
    j: int,
    i: int,
    next: V,
    k: int,
    first: V,
    second: V,
)
    requires
        valid(cloth),
        0 <= j < cloth.particles.len(),
        cloth.particles[j].is_pinned,
        0 <= i < cloth.particles.len(),
        0 <= k < cloth.springs.len(),
    ensures
        cloth.particles.update(i, integrated(cloth.particles[i], next))[j] == cloth.particles[j],
        after_correction(cloth, k, first, second)[j] == cloth.particles[j],
{
    lemma_live_spring_shape(cloth, k);
}

/// Every live constraint joins two different particles of the cloth, the
/// first with the smaller index, and its squared rest length is the squared
/// distance between the cells of its endpoints, both in grid spacings: a
/// fresh cloth is at rest.
pub proof fn lemma_live_spring_shape<V>(cloth: ClothModel<V>, k: int)
    requires
        valid(cloth),
        0 <= k < cloth.springs.len(),
    ensures
        0 <= cloth.springs[k].first < cloth.springs[k].second < cloth.particles.len(),
        ({
            let s = cloth.springs[k];
            let across = column_of(cloth.width, s.second) - column_of(cloth.width, s.first);
            let down = row_of(cloth.width, s.second) - row_of(cloth.width, s.first);
            across * across + down * down == s.kind.rest_squared()
        }),
{
    let w = cloth.width;
    let h = cloth.height;
    let s = cloth.springs[k];
    let picks = choose|picks: Seq<int>| drawn_from(cloth.springs, grid_springs(w, h), picks);
    lemma_grid_spring_origin(w, h, picks[k]);
    let (column, row) = choose|column: int, row: int|
        0 <= column < w && 0 <= row < h && #[trigger] starts_at(w, h, column, row, s);
    lemma_spring_shape(w, h, column, row, s);
}

/// No two live constraints join the same pair of particles.
pub proof fn lemma_live_pairs_distinct<V>(cloth: ClothModel<V>, a: int, b: int)
    requires
        valid(cloth),
        0 <= a < cloth.springs.len(),
        0 <= b < cloth.springs.len(),
        a != b,
    ensures
        !same_pair(cloth.springs[a], cloth.springs[b]),
{
    let w = cloth.width;
    let h = cloth.height;
    let picks = choose|picks: Seq<int>| drawn_from(cloth.springs, grid_springs(w, h), picks);
    assert(picks[a] != picks[b]) by {
        if a < b {
            assert(picks[a] < picks[b]);
        } else {
            assert(picks[b] < picks[a]);
        }
    }
    lemma_grid_pairs_distinct(w, h, picks[a], picks[b]);
}

/// A constraint that a pass takes out is gone for good: it is not among
/// the constraints that the pass leaves, nor in any list `later` that is left
/// of those after more passes, whatever their flags.
pub proof fn lemma_removal_is_permanent<V>(
    cloth: ClothModel<V>,
    keep: Seq<bool>,
    k: int,
    later: Seq<SpringModel>,
)
    requires
        valid(cloth),
        0 <= k < cloth.springs.len(),
        !stays(keep, k),
        remains_of(later, surviving(cloth.springs, keep)),
    ensures
        !surviving(cloth.springs, keep).contains(cloth.springs[k]),
        !later.contains(cloth.springs[k]),
{
    let gone = cloth.springs[k];
    let left = surviving(cloth.springs, keep);
    lemma_kept_positions(keep, cloth.springs.len() as int);
    let positions = kept_positions(keep, cloth.springs.len() as int);
    assert forall|j: int| 0 <= j < left.len() implies left[j] != gone by {
        assert(stays(keep, positions[j]));
        lemma_live_pairs_distinct(cloth, positions[j], k);
    }
    if later.contains(gone) {
        lemma_remains_contained(later, left, gone);
    }
}

} // verus!
