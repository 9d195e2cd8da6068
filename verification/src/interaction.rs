//! What the pointer does to the cloth: which particle it has hold of, where it
//! drags it, and what it cuts.
//!
//! The host measures how far each particle is from the pointer and hands the
//! measurements over as keys: unsigned numbers that order as the squared
//! distances do. Everything else is decided here.

use vstd::prelude::*;
use crate::cloth::{fresh, Cloth, ClothModel};
use crate::particle::dragged;
use crate::solver::culling;
use crate::spring::SpringKind;

verus! {

/// Whether position `i` holds the least key of `keys`, and is the first
/// position that does.
pub open spec fn is_nearest(keys: Seq<u32>, i: int) -> bool {
    &&& 0 <= i < keys.len()
    &&& forall|j: int| 0 <= j < keys.len() ==> keys[i] <= #[trigger] keys[j]
    &&& forall|j: int| 0 <= j < i ==> keys[i] < #[trigger] keys[j]
}

/// Whether `picked` is the pick among particles with the keys `keys`: the
/// nearest one, if it is nearer than `limit`, else none. Of several particles
/// that are equally near, the one with the least index is picked.
pub open spec fn is_pick(keys: Seq<u32>, limit: u32, picked: Option<usize>) -> bool {
    match picked {
        Some(i) => is_nearest(keys, i as int) && keys[i as int] < limit,
        None => forall|j: int| 0 <= j < keys.len() ==> #[trigger] keys[j] >= limit,
    }
}

/// Whether `keys` holds what `measure` says of the particles of `cloth`, asked
/// with the position of each in turn.
pub open spec fn measured<V, M: Fn(V) -> u32>(
    measure: M,
    cloth: ClothModel<V>,
    keys: Seq<u32>,
) -> bool {
    &&& keys.len() == cloth.particles.len()
    &&& forall|i: int|
        0 <= i < keys.len() ==> call_ensures(measure, (cloth.particles[i].pos,), #[trigger] keys[i])
}

/// The particle to pick: see [`is_pick`].
pub fn pick(keys: &Vec<u32>, limit: u32) -> (picked: Option<usize>)
    ensures
        is_pick(keys@, limit, picked),
{
    let mut closest_key: u32 = u32::MAX;
    let mut closest_idx: usize = 0;
    let mut i: usize = 0;
    while i < keys.len()
        invariant
            i <= keys@.len(),
            forall|j: int| 0 <= j < i ==> closest_key <= #[trigger] keys@[j],
            closest_key < u32::MAX ==> closest_idx < i && keys@[closest_idx as int] == closest_key
                && forall|j: int| 0 <= j < closest_idx ==> closest_key < #[trigger] keys@[j],
        decreases keys@.len() - i,
    {
        if keys[i] < closest_key {
            closest_key = keys[i];
            closest_idx = i;
        }
        i += 1;
    }
    if closest_key < limit {
        Some(closest_idx)
    } else {
        None
    }
}

/// What the pointer has hold of.
#[derive(Clone, Copy, Debug, PartialEq, Eq, Structural)]
pub enum Selection {
    /// Nothing is selected.
    Idle,
    /// The particle with this index follows the pointer.
    Dragging(usize),
}

impl Selection {
    /// The selection after the select trigger was pressed. `over_ui` says
    /// whether the pointer is over the surface that is excluded from
    /// selection, `picked` which particle is within reach, if any. A press
    /// that picks nothing leaves the selection as it is.
    pub open spec fn after_press(self, over_ui: bool, picked: Option<usize>) -> Selection {
        match picked {
            Some(i) if !over_ui => Selection::Dragging(i),
            _ => self,
        }
    }

    /// The selection after a frame in which the select trigger is held, for a
    /// cloth of `particle_count` particles. A selection that names no
    /// particle of the cloth is dropped.
    pub open spec fn after_hold(self, particle_count: int) -> Selection {
        match self {
            Selection::Dragging(i) if i < particle_count => self,
            _ => Selection::Idle,
        }
    }

    /// The particle that is to follow the pointer in a frame in which the
    /// select trigger is held.
    pub open spec fn dragged(self, particle_count: int) -> Option<usize> {
        match self {
            Selection::Dragging(i) if i < particle_count => Some(i),
            _ => None,
        }
    }

    /// The select trigger was pressed: see [`Selection::after_press`].
    pub fn press(self, over_ui: bool, picked: Option<usize>) -> (next: Selection)
        ensures
            next == self.after_press(over_ui, picked),
    {
        if over_ui {
            self
        } else {
            match picked {
                Some(i) => Selection::Dragging(i),
                None => self,
            }
        }
    }

    /// The select trigger is held. Returns the selection after this frame and
    /// the particle that is to be moved to the pointer, if any: the selected
    /// one, pinned or not, as long as the cloth has a particle with that
    /// index.
    pub fn hold(self, particle_count: usize) -> (step: (Selection, Option<usize>))
        ensures
            step.0 == self.after_hold(particle_count as int),
            step.1 == self.dragged(particle_count as int),
    {
        match self {
            Selection::Dragging(i) => {
                if i < particle_count {
                    (self, Some(i))
                } else {
                    (Selection::Idle, None)
                }
            },
            Selection::Idle => (Selection::Idle, None),
        }
    }

    /// The select trigger was released: nothing is selected any more.
    pub fn release(self) -> (next: Selection)
        ensures
            next == Selection::Idle,
    {
        Selection::Idle
    }

    /// The index of the selected particle, if one is selected.
    pub fn selected(self) -> (index: Option<usize>)
        ensures
            index == match self {
                Selection::Idle => None::<usize>,
                Selection::Dragging(i) => Some(i),
            },
    {
        match self {
            Selection::Idle => None,
            Selection::Dragging(i) => Some(i),
        }
    }
}

/// What the pointer does in a frame: where it is, what has happened to the
/// select trigger, whether the cut trigger is held, and whether the pointer
/// is over the surface that is excluded from selection.
pub struct Pointer<V> {
    pub position: V,
    pub select_pressed: bool,
    pub select_held: bool,
    pub select_released: bool,
    pub cut_held: bool,
    pub over_ui: bool,
}

/// Whether `next` is the selection after a press on `cloth` away from the
/// excluded surface: `measure` says how far each particle is, and the
/// particle within `limit`, if there is one, is selected.
pub open spec fn pressing<V, M: Fn(V) -> u32>(
    measure: M,
    limit: u32,
    cloth: ClothModel<V>,
    selection: Selection,
    next: Selection,
) -> bool {
    exists|keys: Seq<u32>, picked: Option<usize>|
        measured(measure, cloth, keys) && is_pick(keys, limit, picked) && next
            == selection.after_press(false, picked)
}

/// The cloth after a frame in which the select trigger is held with the
/// pointer at `cursor`: the selected particle, if the cloth has it, has been
/// dragged there.
pub open spec fn held<V>(cloth: ClothModel<V>, selection: Selection, cursor: V) -> ClothModel<V> {
    match selection.dragged(cloth.particles.len() as int) {
        Some(i) => ClothModel {
            particles: cloth.particles.update(i as int, dragged(cloth.particles[i as int], cursor)),
            ..cloth
        },
        None => cloth,
    }
}

/// Whether `after` and `next` are cloth and selection after the pointer had
/// its way with `before` and `selection`, by way of the cloth `cut` and the
/// selection `pressed`. First the cut, if the cut trigger is held: every
/// constraint of which `spared` says `false` leaves, which gives `cut`. Then
/// the press, if the select trigger was pressed, which gives `pressed`; the
/// drag, if it is held; and the release, if it was released.
pub open spec fn interaction_by<V, C: Fn(V, V, SpringKind) -> bool, M: Fn(V) -> u32>(
    spared: C,
    measure: M,
    limit: u32,
    pointer: Pointer<V>,
    before: ClothModel<V>,
    selection: Selection,
    cut: ClothModel<V>,
    pressed: Selection,
    after: ClothModel<V>,
    next: Selection,
) -> bool {
    &&& if pointer.cut_held {
        culling(spared, before, cut)
    } else {
        cut == before
    }
    &&& if pointer.select_pressed && !pointer.over_ui {
        pressing(measure, limit, cut, selection, pressed)
    } else {
        pressed == selection
    }
    &&& after == if pointer.select_held {
        held(cut, pressed, pointer.position)
    } else {
        cut
    }
    &&& next == if pointer.select_released {
        Selection::Idle
    } else if pointer.select_held {
        pressed.after_hold(cut.particles.len() as int)
    } else {
        pressed
    }
}

/// Whether `after` and `next` are cloth and selection after the pointer had
/// its way with `before` and `selection`: the cut, the press, the drag and
/// the release, in this order, each only if its trigger asks for it.
pub open spec fn interaction<V, C: Fn(V, V, SpringKind) -> bool, M: Fn(V) -> u32>(
    spared: C,
    measure: M,
    limit: u32,
    pointer: Pointer<V>,
    before: ClothModel<V>,
    selection: Selection,
    after: ClothModel<V>,
    next: Selection,
) -> bool {
    exists|cut: ClothModel<V>, pressed: Selection|
        interaction_by(spared, measure, limit, pointer, before, selection, cut, pressed, after, next)
}

impl<V: Copy> Cloth<V> {
    /// The pointer's part of a frame: see [`interaction`].
    pub fn interact<C: Fn(V, V, SpringKind) -> bool, M: Fn(V) -> u32>(
        &mut self,
        selection: Selection,
        pointer: &Pointer<V>,
        spared: &C,
        measure: &M,
        limit: u32,
    ) -> (next: Selection)
        requires
            old(self).wf(),
            forall|a: V, b: V, kind: SpringKind| call_requires(*spared, (a, b, kind)),
            forall|pos: V| call_requires(*measure, (pos,)),
        ensures
            final(self).wf(),
            interaction(*spared, *measure, limit, *pointer, old(self)@, selection, final(self)@, next),
    {
        if pointer.cut_held {
            self.retain_where(spared);
        }
        let ghost cut = self@;
        let mut current = selection;
        if pointer.select_pressed {
            current = self.press(current, pointer.over_ui, measure, limit);
        }
        let ghost pressed = current;
        if pointer.select_held {
            current = self.follow_pointer(current, pointer.position);
        }
        if pointer.select_released {
            current = current.release();
        }
        proof {
            assert(interaction_by(
                *spared,
                *measure,
                limit,
                *pointer,
                old(self)@,
                selection,
                cut,
                pressed,
                self@,
                current,
            ));
        }
        current
    }

    /// The particle within reach of the pointer: `measure` says how far each
    /// particle is, as a key, given its position; the pick is the nearest,
    /// if it is nearer than `limit`.
    pub fn nearest_within<M: Fn(V) -> u32>(&self, measure: &M, limit: u32) -> (picked: Option<
        usize,
    >)
        requires
            forall|pos: V| call_requires(*measure, (pos,)),
        ensures
            exists|keys: Seq<u32>| measured(*measure, self@, keys) && is_pick(keys, limit, picked),
    {
        let n = self.particle_count();
        let mut keys: Vec<u32> = Vec::new();
        let mut i: usize = 0;
        while i < n
            invariant
                forall|pos: V| call_requires(*measure, (pos,)),
                n == self@.particles.len(),
                i <= n,
                keys@.len() == i,
                forall|j: int|
                    0 <= j < i ==> call_ensures(
                        *measure,
                        (self@.particles[j].pos,),
                        #[trigger] keys@[j],
                    ),
            decreases n - i,
        {
            keys.push(measure(self.particle(i).pos));
            i += 1;
        }
        let picked = pick(&keys, limit);
        proof {
            assert(measured(*measure, self@, keys@));
        }
        picked
    }

    /// The select trigger was pressed. Over the excluded surface nothing
    /// happens, and nothing is measured. Elsewhere the particle within reach
    /// is selected, if there is one: see [`Cloth::nearest_within`] and
    /// [`Selection::after_press`].
    pub fn press<M: Fn(V) -> u32>(
        &self,
        selection: Selection,
        over_ui: bool,
        measure: &M,
        limit: u32,
    ) -> (next: Selection)
        requires
            forall|pos: V| call_requires(*measure, (pos,)),
        ensures
            over_ui ==> next == selection,
            !over_ui ==> pressing(*measure, limit, self@, selection, next),
    {
        if over_ui {
            selection
        } else {
            let picked = self.nearest_within(measure, limit);
            selection.press(false, picked)
        }
    }

    /// Takes the configuration of a frame into account. A cloth that was made
    /// for another grid than one of `width` columns and `height` rows is
    /// replaced by a fresh one, and so is any cloth on `reset`; the selection
    /// is then dropped, since it belonged to the cloth that is gone. Otherwise
    /// cloth and selection are left as they are.
    pub fn rebuild_on_change<F: Fn(usize, usize) -> V>(
        &mut self,
        selection: Selection,
        width: usize,
        height: usize,
        reset: bool,
        place: &F,
    ) -> (next: Selection)
        requires
            old(self).wf(),
            2 <= width,
            2 <= height,
            width * height <= usize::MAX,
            forall|column: usize, row: usize| call_requires(*place, (column, row)),
        ensures
            final(self).wf(),
            reset || old(self)@.width != width || old(self)@.height != height ==> fresh(
                *place,
                width as int,
                height as int,
                final(self)@,
            ) && next == Selection::Idle,
            !(reset || old(self)@.width != width || old(self)@.height != height) ==> final(self)@
                == old(self)@ && next == selection,
    {
        if reset || !self.has_dimensions(width, height) {
            *self = Cloth::new(width, height, place);
            Selection::Idle
        } else {
            selection
        }
    }

    /// A frame in which the select trigger is held, with the pointer at
    /// `cursor`: the selected particle, if the cloth has it, is dragged there
    /// and stays selected; a selection that names no particle of the cloth is
    /// dropped and nothing moves.
    pub fn follow_pointer(&mut self, selection: Selection, cursor: V) -> (next: Selection)
        requires
            old(self).wf(),
        ensures
            final(self).wf(),
            next == selection.after_hold(old(self)@.particles.len() as int),
            final(self)@ == held(old(self)@, selection, cursor),
    {
        let (next, target) = selection.hold(self.particle_count());
        match target {
            Some(i) => {
                self.drag(i, cursor);
            },
            None => {},
        }
        next
    }
}

} // verus!
