//! The passes of a frame over the whole cloth: integration, tearing (or
//! cutting), relaxation, and the frame that strings them together.
//!
//! Where a particle goes, whether a constraint holds and how it is corrected
//! is arithmetic on points, which the host supplies as functions. What is
//! decided here is which particle and which constraint is asked about, in
//! which order, and what becomes of the answers.

use vstd::prelude::*;
use crate::cloth::{
    after_correction, lemma_live_spring_shape, lemma_removal_is_permanent, valid, Cloth,
    ClothModel,
};
use crate::particle::{integrated, Particle};
use crate::remainder::{
    kept_positions, lemma_kept_positions, lemma_remains_chain, lemma_remains_contained,
    lemma_remains_whole, lemma_surviving_drawn, remains_of, surviving,
};
use crate::spring::{SpringKind, SpringModel};

verus! {

/// Whether `after` is what an integration step makes of the particle
/// `before` with index `i`, where `step` says where a free particle goes.
pub open spec fn integrates<V, F: Fn(usize, V, V) -> V>(
    step: F,
    i: int,
    before: Particle<V>,
    after: Particle<V>,
) -> bool {
    if before.is_pinned {
        after == before
    } else {
        exists|next: V|
            call_ensures(step, (i as usize, before.pos, before.old_pos), next) && after
                == integrated(before, next)
    }
}

/// Whether `after` is what an integration pass makes of `before`.
pub open spec fn integration<V, F: Fn(usize, V, V) -> V>(
    step: F,
    before: ClothModel<V>,
    after: ClothModel<V>,
) -> bool {
    &&& after == ClothModel { particles: after.particles, ..before }
    &&& after.particles.len() == before.particles.len()
    &&& forall|i: int|
        0 <= i < before.particles.len() ==> integrates(
            step,
            i,
            before.particles[i],
            #[trigger] after.particles[i],
        )
}

/// Whether `verdict` is what `holds` says of the `k`-th live constraint of
/// `cloth`, asked with the positions of its two endpoints and its kind.
pub open spec fn judged<V, G: Fn(V, V, SpringKind) -> bool>(
    holds: G,
    cloth: ClothModel<V>,
    k: int,
    verdict: bool,
) -> bool {
    let spring = cloth.springs[k];
    call_ensures(
        holds,
        (cloth.particles[spring.first].pos, cloth.particles[spring.second].pos, spring.kind),
        verdict,
    )
}

/// Whether `after` is what is left of `before` when every live constraint
/// was judged by `holds` and those that do not hold were taken out.
pub open spec fn culling<V, G: Fn(V, V, SpringKind) -> bool>(
    holds: G,
    before: ClothModel<V>,
    after: ClothModel<V>,
) -> bool {
    exists|keep: Seq<bool>| verdicts(holds, before, keep, after)
}

/// Whether `keep` holds the verdicts of `holds` on the live constraints of
/// `before`, one by one, and `after` is what they leave.
pub open spec fn verdicts<V, G: Fn(V, V, SpringKind) -> bool>(
    holds: G,
    before: ClothModel<V>,
    keep: Seq<bool>,
    after: ClothModel<V>,
) -> bool {
    &&& keep.len() == before.springs.len()
    &&& forall|k: int| 0 <= k < keep.len() ==> judged(holds, before, k, #[trigger] keep[k])
    &&& after == ClothModel { springs: surviving(before.springs, keep), ..before }
}

/// Whether `after` are the particles of `cloth` once its `k`-th live
/// constraint was corrected: `solve`, asked with the positions of the two
/// endpoints and the kind, either says where the endpoints belong, and each
/// goes there unless it is pinned; or says nothing, and nothing moves.
pub open spec fn corrects<V, H: Fn(V, V, SpringKind) -> Option<(V, V)>>(
    solve: H,
    cloth: ClothModel<V>,
    k: int,
    after: Seq<Particle<V>>,
) -> bool {
    let spring = cloth.springs[k];
    exists|answer: Option<(V, V)>|
        call_ensures(
            solve,
            (cloth.particles[spring.first].pos, cloth.particles[spring.second].pos, spring.kind),
            answer,
        ) && after == match answer {
            Some(ends) => after_correction(cloth, k, ends.0, ends.1),
            None => cloth.particles,
        }
}

/// Whether `after` are the particles of `cloth` once its first `n` live
/// constraints were corrected, one after the other, each on the positions
/// that the corrections before it left.
pub open spec fn relaxed<V, H: Fn(V, V, SpringKind) -> Option<(V, V)>>(
    solve: H,
    cloth: ClothModel<V>,
    n: int,
    after: Seq<Particle<V>>,
) -> bool
    decreases n,
{
    if n <= 0 {
        after == cloth.particles
    } else {
        exists|before: Seq<Particle<V>>|
            relaxed(solve, cloth, n - 1, before) && corrects(
                solve,
                ClothModel { particles: before, ..cloth },
                n - 1,
                after,
            )
    }
}

/// Whether `after` is what a relaxation pass makes of `before`: all live
/// constraints corrected in their order.
pub open spec fn relaxation<V, H: Fn(V, V, SpringKind) -> Option<(V, V)>>(
    solve: H,
    before: ClothModel<V>,
    after: ClothModel<V>,
) -> bool {
    &&& after == ClothModel { particles: after.particles, ..before }
    &&& relaxed(solve, before, before.springs.len() as int, after.particles)
}

/// Whether `after` is what `n` iterations make of `before`. Each iteration
/// first takes out the constraints that do not hold, then relaxes those that
/// are left.
pub open spec fn iterated<
    V,
    G: Fn(V, V, SpringKind) -> bool,
    H: Fn(V, V, SpringKind) -> Option<(V, V)>,
>(holds: G, solve: H, n: int, before: ClothModel<V>, after: ClothModel<V>) -> bool
    decreases n,
{
    if n <= 0 {
        after == before
    } else {
        exists|start: ClothModel<V>, torn: ClothModel<V>|
            iterated(holds, solve, n - 1, before, start) && culling(holds, start, torn)
                && relaxation(solve, torn, after)
    }
}

/// Whether `after` is what a frame makes of `before`: one integration pass,
/// then `iterations` iterations.
pub open spec fn frame<
    V,
    F: Fn(usize, V, V) -> V,
    G: Fn(V, V, SpringKind) -> bool,
    H: Fn(V, V, SpringKind) -> Option<(V, V)>,
>(step: F, holds: G, solve: H, iterations: int, before: ClothModel<V>, after: ClothModel<V>) -> bool {
    exists|moved: ClothModel<V>|
        integration(step, before, moved) && iterated(holds, solve, iterations, moved, after)
}

/// Whether `after` differs from `before` at most in where the free particles
/// are and were: there are as many particles, each belongs to the cell it
/// belonged to, is pinned as it was, and, if it is pinned, is as it was.
pub open spec fn moved_only_free<V>(before: Seq<Particle<V>>, after: Seq<Particle<V>>) -> bool {
    &&& after.len() == before.len()
    &&& forall|j: int|
        0 <= j < before.len() ==> {
            &&& (#[trigger] after[j]).column == before[j].column
            &&& after[j].row == before[j].row
            &&& after[j].is_pinned == before[j].is_pinned
            &&& before[j].is_pinned ==> after[j] == before[j]
        }
}

/// Whether the step from `before` to `after` is one that a frame may take:
/// the grid is the same, only free particles have moved, and the live
/// constraints of `after` are what is left of those of `before`.
pub open spec fn frame_like<V>(before: ClothModel<V>, after: ClothModel<V>) -> bool {
    &&& after.width == before.width
    &&& after.height == before.height
    &&& moved_only_free(before.particles, after.particles)
    &&& remains_of(after.springs, before.springs)
}

proof fn lemma_frame_like_valid<V>(before: ClothModel<V>, after: ClothModel<V>)
    requires
        valid(before),
        frame_like(before, after),
    ensures
        valid(after),
{
    lemma_remains_chain(
        after.springs,
        before.springs,
        crate::topology::grid_springs(before.width, before.height),
    );
}

proof fn lemma_frame_like_chain<V>(a: ClothModel<V>, b: ClothModel<V>, c: ClothModel<V>)
    requires
        frame_like(a, b),
        frame_like(b, c),
    ensures
        frame_like(a, c),
{
    lemma_remains_chain(c.springs, b.springs, a.springs);
}

/// An integration pass moves only free particles and takes no constraint
/// out.
pub proof fn lemma_integration_frame_like<V, F: Fn(usize, V, V) -> V>(
    step: F,
    before: ClothModel<V>,
    after: ClothModel<V>,
)
    requires
        integration(step, before, after),
    ensures
        frame_like(before, after),
{
    lemma_remains_whole(before.springs);
    assert forall|j: int| 0 <= j < before.particles.len() implies {
        &&& (#[trigger] after.particles[j]).column == before.particles[j].column
        &&& after.particles[j].row == before.particles[j].row
        &&& after.particles[j].is_pinned == before.particles[j].is_pinned
        &&& before.particles[j].is_pinned ==> after.particles[j] == before.particles[j]
    } by {
        assert(integrates(step, j, before.particles[j], after.particles[j]));
    }
}

/// Taking constraints out moves nothing.
pub proof fn lemma_culling_frame_like<V, G: Fn(V, V, SpringKind) -> bool>(
    holds: G,
    before: ClothModel<V>,
    after: ClothModel<V>,
)
    requires
        culling(holds, before, after),
    ensures
        frame_like(before, after),
        after.particles == before.particles,
{
    let keep = choose|keep: Seq<bool>| verdicts(holds, before, keep, after);
    lemma_surviving_drawn(before.springs, keep);
}

/// Every constraint that a culling pass leaves was found to hold, judged
/// where its endpoints are.
pub proof fn lemma_culling_clears<V, G: Fn(V, V, SpringKind) -> bool>(
    holds: G,
    before: ClothModel<V>,
    after: ClothModel<V>,
    j: int,
)
    requires
        culling(holds, before, after),
        0 <= j < after.springs.len(),
    ensures
        judged(holds, after, j, true),
{
    let keep = choose|keep: Seq<bool>| verdicts(holds, before, keep, after);
    lemma_kept_positions(keep, before.springs.len() as int);
    let positions = kept_positions(keep, before.springs.len() as int);
    assert(judged(holds, before, positions[j], keep[positions[j]]));
}

proof fn lemma_relaxed_frame_like<V, H: Fn(V, V, SpringKind) -> Option<(V, V)>>(
    solve: H,
    cloth: ClothModel<V>,
    n: int,
    after: Seq<Particle<V>>,
)
    requires
        valid(cloth),
        0 <= n <= cloth.springs.len(),
        relaxed(solve, cloth, n, after),
    ensures
        moved_only_free(cloth.particles, after),
    decreases n,
{
    if n > 0 {
        let before = choose|before: Seq<Particle<V>>|
            relaxed(solve, cloth, n - 1, before) && corrects(
                solve,
                ClothModel { particles: before, ..cloth },
                n - 1,
                after,
            );
        lemma_relaxed_frame_like(solve, cloth, n - 1, before);
        lemma_live_spring_shape(cloth, n - 1);
    }
}

/// A relaxation pass moves only free particles and takes no constraint out.
pub proof fn lemma_relaxation_frame_like<V, H: Fn(V, V, SpringKind) -> Option<(V, V)>>(
    solve: H,
    before: ClothModel<V>,
    after: ClothModel<V>,
)
    requires
        valid(before),
        relaxation(solve, before, after),
    ensures
        frame_like(before, after),
{
    lemma_relaxed_frame_like(solve, before, before.springs.len() as int, after.particles);
    lemma_remains_whole(before.springs);
}

proof fn lemma_iterated_frame_like<
    V,
    G: Fn(V, V, SpringKind) -> bool,
    H: Fn(V, V, SpringKind) -> Option<(V, V)>,
>(holds: G, solve: H, n: int, before: ClothModel<V>, after: ClothModel<V>)
    requires
        valid(before),
        iterated(holds, solve, n, before, after),
    ensures
        frame_like(before, after),
    decreases n,
{
    if n <= 0 {
        lemma_remains_whole(before.springs);
    } else {
        let (start, torn) = choose|start: ClothModel<V>, torn: ClothModel<V>|
            iterated(holds, solve, n - 1, before, start) && culling(holds, start, torn)
                && relaxation(solve, torn, after);
        lemma_iterated_frame_like(holds, solve, n - 1, before, start);
        lemma_frame_like_valid(before, start);
        lemma_culling_frame_like(holds, start, torn);
        lemma_frame_like_valid(start, torn);
        lemma_relaxation_frame_like(solve, torn, after);
        lemma_frame_like_chain(before, start, torn);
        lemma_frame_like_chain(before, torn, after);
    }
}

/// What holds of every frame, whatever the host's arithmetic returns: the
/// cloth stays in order, every pinned particle is exactly as it was, and the
/// live constraints are what is left of those that were live before, in
/// their order. No constraint comes back.
pub proof fn lemma_frame_invariants<
    V,
    F: Fn(usize, V, V) -> V,
    G: Fn(V, V, SpringKind) -> bool,
    H: Fn(V, V, SpringKind) -> Option<(V, V)>,
>(step: F, holds: G, solve: H, iterations: int, before: ClothModel<V>, after: ClothModel<V>)
    requires
        valid(before),
        frame(step, holds, solve, iterations, before, after),
    ensures
        valid(after),
        frame_like(before, after),
        forall|j: int|
            0 <= j < before.particles.len() && before.particles[j].is_pinned
                ==> #[trigger] after.particles[j] == before.particles[j],
{
    let moved = choose|moved: ClothModel<V>|
        integration(step, before, moved) && iterated(holds, solve, iterations, moved, after);
    lemma_integration_frame_like(step, before, moved);
    lemma_frame_like_valid(before, moved);
    lemma_iterated_frame_like(holds, solve, iterations, moved, after);
    lemma_frame_like_chain(before, moved, after);
    lemma_frame_like_valid(before, after);
}

/// A culling pass takes out every constraint that does not hold: if `holds`
/// can only say `false` of the `k`-th live constraint, that constraint is not
/// among those that the pass leaves.
pub proof fn lemma_culling_takes_out<V, G: Fn(V, V, SpringKind) -> bool>(
    holds: G,
    before: ClothModel<V>,
    after: ClothModel<V>,
    k: int,
)
    requires
        valid(before),
        culling(holds, before, after),
        0 <= k < before.springs.len(),
        forall|verdict: bool| judged(holds, before, k, verdict) ==> !verdict,
    ensures
        !after.springs.contains(before.springs[k]),
{
    let keep = choose|keep: Seq<bool>| verdicts(holds, before, keep, after);
    assert(judged(holds, before, k, keep[k]));
    lemma_remains_whole(after.springs);
    lemma_removal_is_permanent(before, keep, k, after.springs);
}

/// What is not among the live constraints after one frame is not among them
/// after the next.
pub proof fn lemma_gone_stays_gone<V>(
    after: ClothModel<V>,
    later: ClothModel<V>,
    spring: SpringModel,
)
    requires
        frame_like(after, later),
        !after.springs.contains(spring),
    ensures
        !later.springs.contains(spring),
{
    if later.springs.contains(spring) {
        lemma_remains_contained(later.springs, after.springs, spring);
    }
}

impl<V: Copy> Cloth<V> {
    /// The integration pass: every particle that is not pinned goes where
    /// `step` says, given its index, its position and its previous position,
    /// and remembers where it came from.
    pub fn integrate_all<F: Fn(usize, V, V) -> V>(&mut self, step: &F)
        requires
            old(self).wf(),
            forall|i: usize, pos: V, old_pos: V| call_requires(*step, (i, pos, old_pos)),
        ensures
            final(self).wf(),
            integration(*step, old(self)@, final(self)@),
    {
        let n = self.particle_count();
        let mut i: usize = 0;
        while i < n
            invariant
                forall|i: usize, pos: V, old_pos: V| call_requires(*step, (i, pos, old_pos)),
                self.wf(),
                i <= n,
                n == old(self)@.particles.len(),
                self@ == (ClothModel { particles: self@.particles, ..old(self)@ }),
                self@.particles.len() == n,
                forall|j: int|
                    0 <= j < i ==> integrates(
                        *step,
                        j,
                        old(self)@.particles[j],
                        #[trigger] self@.particles[j],
                    ),
                forall|j: int| i <= j < n ==> self@.particles[j] == old(self)@.particles[j],
            decreases n - i,
        {
            let particle = self.particle(i);
            if !particle.is_pinned {
                let next = step(i, particle.pos, particle.old_pos);
                self.integrate(i, next);
            }
            i += 1;
        }
    }

    /// Takes out, for good, every live constraint of which `holds` says
    /// `false`, asked with the positions of its two endpoints and its kind.
    /// Tearing asks whether the constraint is still short enough, cutting
    /// whether it is out of the blade's reach. Every constraint that is left
    /// was found to hold.
    pub fn retain_where<G: Fn(V, V, SpringKind) -> bool>(&mut self, holds: &G)
        requires
            old(self).wf(),
            forall|a: V, b: V, kind: SpringKind| call_requires(*holds, (a, b, kind)),
        ensures
            final(self).wf(),
            culling(*holds, old(self)@, final(self)@),
            forall|j: int|
                0 <= j < final(self)@.springs.len() ==> #[trigger] judged(
                    *holds,
                    final(self)@,
                    j,
                    true,
                ),
    {
        let n = self.spring_count();
        let mut keep: Vec<bool> = Vec::new();
        let mut k: usize = 0;
        while k < n
            invariant
                forall|a: V, b: V, kind: SpringKind| call_requires(*holds, (a, b, kind)),
                *self == *old(self),
                self.wf(),
                n == self@.springs.len(),
                k <= n,
                keep@.len() == k,
                forall|j: int| 0 <= j < k ==> judged(*holds, self@, j, #[trigger] keep@[j]),
            decreases n - k,
        {
            let spring = self.spring(k);
            let a = self.particle(spring.p1_idx).pos;
            let b = self.particle(spring.p2_idx).pos;
            keep.push(holds(a, b, spring.kind));
            k += 1;
        }
        self.retain_springs(&keep);
        proof {
            assert(verdicts(*holds, old(self)@, keep@, self@));
            assert forall|j: int| 0 <= j < self@.springs.len() implies #[trigger] judged(
                *holds,
                self@,
                j,
                true,
            ) by {
                lemma_culling_clears(*holds, old(self)@, self@, j);
            }
        }
    }

    /// The relaxation pass: the live constraints are corrected one after the
    /// other, in their order, each on the positions that the corrections
    /// before it left. `solve`, asked with the positions of the two endpoints
    /// and the kind, says where the endpoints belong, or nothing where the
    /// constraint cannot be corrected; an endpoint that is pinned stays.
    pub fn relax<H: Fn(V, V, SpringKind) -> Option<(V, V)>>(&mut self, solve: &H)
        requires
            old(self).wf(),
            forall|a: V, b: V, kind: SpringKind| call_requires(*solve, (a, b, kind)),
        ensures
            final(self).wf(),
            relaxation(*solve, old(self)@, final(self)@),
    {
        let n = self.spring_count();
        let mut k: usize = 0;
        while k < n
            invariant
                forall|a: V, b: V, kind: SpringKind| call_requires(*solve, (a, b, kind)),
                self.wf(),
                n == old(self)@.springs.len(),
                k <= n,
                self@ == (ClothModel { particles: self@.particles, ..old(self)@ }),
                relaxed(*solve, old(self)@, k as int, self@.particles),
            decreases n - k,
        {
            let ghost before = self@.particles;
            let spring = self.spring(k);
            let a = self.particle(spring.p1_idx).pos;
            let b = self.particle(spring.p2_idx).pos;
            let answer = solve(a, b, spring.kind);
            match answer {
                Some(ends) => {
                    self.correct(k, ends.0, ends.1);
                },
                None => {},
            }
            proof {
                assert(corrects(
                    *solve,
                    ClothModel { particles: before, ..old(self)@ },
                    k as int,
                    self@.particles,
                ));
            }
            k += 1;
        }
    }

    /// One frame: the integration pass, then `iterations` times a tearing
    /// pass followed by a relaxation pass. A constraint that is torn in an
    /// iteration takes no part in the relaxation of that iteration, nor in
    /// anything after it.
    pub fn update<
        F: Fn(usize, V, V) -> V,
        G: Fn(V, V, SpringKind) -> bool,
        H: Fn(V, V, SpringKind) -> Option<(V, V)>,
    >(&mut self, iterations: usize, step: &F, holds: &G, solve: &H)
        requires
            old(self).wf(),
            forall|i: usize, pos: V, old_pos: V| call_requires(*step, (i, pos, old_pos)),
            forall|a: V, b: V, kind: SpringKind| call_requires(*holds, (a, b, kind)),
            forall|a: V, b: V, kind: SpringKind| call_requires(*solve, (a, b, kind)),
        ensures
            final(self).wf(),
            frame(*step, *holds, *solve, iterations as int, old(self)@, final(self)@),
    {
        self.integrate_all(step);
        let ghost moved = self@;
        let mut done: usize = 0;
        while done < iterations
            invariant
                forall|a: V, b: V, kind: SpringKind| call_requires(*holds, (a, b, kind)),
                forall|a: V, b: V, kind: SpringKind| call_requires(*solve, (a, b, kind)),
                self.wf(),
                done <= iterations,
                iterated(*holds, *solve, done as int, moved, self@),
            decreases iterations - done,
        {
            let ghost start = self@;
            self.retain_where(holds);
            let ghost torn = self@;
            self.relax(solve);
            proof {
                assert(iterated(*holds, *solve, done as int, moved, start) && culling(
                    *holds,
                    start,
                    torn,
                ) && relaxation(*solve, torn, self@));
            }
            done += 1;
        }
    }
}

} // verus!
