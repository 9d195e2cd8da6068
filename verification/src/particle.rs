//! The mass points of a cloth.
//!
//! A particle is generic in the type `V` of a point of the plane. Nothing here
//! computes with points: where a particle goes next is for the host to work
//! out, and whether it may go there is decided here.

use vstd::prelude::*;
use crate::topology::{column_of, row_of};

verus! {

/// A mass point of the cloth: where it is, where it was a step ago (the
/// difference of the two is its velocity), the cell of the grid that it was
/// created for, and whether it is pinned. A pinned particle anchors the
/// cloth: neither integration nor constraint correction moves it.
#[derive(Debug)]
pub struct Particle<V> {
    pub pos: V,
    pub old_pos: V,
    pub column: usize,
    pub row: usize,
    pub is_pinned: bool,
}

impl<V: Copy> Clone for Particle<V> {
    fn clone(&self) -> (copy: Self)
        ensures
            copy == *self,
    {
        *self
    }
}

impl<V: Copy> Copy for Particle<V> {

}

/// What the particle with index `i` of a grid of `width` columns is: it was
/// created for the cell with that index, and it is pinned exactly if that
/// cell lies in the top row.
pub open spec fn sits_at<V>(particle: Particle<V>, width: int, i: int) -> bool {
    &&& particle.column == column_of(width, i)
    &&& particle.row == row_of(width, i)
    &&& particle.is_pinned == (row_of(width, i) == 0)
}

/// Whether `particles` are the particles of a grid of `width` columns and
/// `height` rows, row by row.
pub open spec fn is_grid_store<V>(particles: Seq<Particle<V>>, width: int, height: int) -> bool {
    &&& particles.len() == width * height
    &&& forall|i: int| 0 <= i < particles.len() ==> sits_at(#[trigger] particles[i], width, i)
}

/// A particle as it is created at `pos`: at rest there.
pub open spec fn placed<V>(pos: V, width: int, i: int) -> Particle<V> {
    Particle {
        pos,
        old_pos: pos,
        column: column_of(width, i) as usize,
        row: row_of(width, i) as usize,
        is_pinned: row_of(width, i) == 0,
    }
}

/// A particle after an integration step that takes it to `next`: a pinned
/// particle is as it was, any other is at `next` and remembers where it came
/// from.
pub open spec fn integrated<V>(particle: Particle<V>, next: V) -> Particle<V> {
    if particle.is_pinned {
        particle
    } else {
        Particle { pos: next, old_pos: particle.pos, ..particle }
    }
}

/// A particle after a constraint correction that takes it to `next`: a pinned
/// particle is as it was, any other is at `next`. Where it was a step ago is
/// not touched.
pub open spec fn corrected<V>(particle: Particle<V>, next: V) -> Particle<V> {
    if particle.is_pinned {
        particle
    } else {
        Particle { pos: next, ..particle }
    }
}

/// A particle after the pointer has dragged it to `cursor`, pinned or not. It
/// remembers where it was, so that letting go leaves it with the speed of the
/// drag.
pub open spec fn dragged<V>(particle: Particle<V>, cursor: V) -> Particle<V> {
    Particle { pos: cursor, old_pos: particle.pos, ..particle }
}

impl<V: Copy> Particle<V> {
    /// A free particle at rest at `pos`, made for the cell in `column` of
    /// `row`.
    pub fn new(pos: V, column: usize, row: usize) -> (particle: Particle<V>)
        ensures
            particle == (Particle { pos, old_pos: pos, column, row, is_pinned: false }),
    {
        Particle { pos, old_pos: pos, column, row, is_pinned: false }
    }

    /// See [`integrated`].
    pub fn integrate(self, next: V) -> (after: Particle<V>)
        ensures
            after == integrated(self, next),
    {
        if self.is_pinned {
            self
        } else {
            Particle {
                pos: next,
                old_pos: self.pos,
                column: self.column,
                row: self.row,
                is_pinned: self.is_pinned,
            }
        }
    }

    /// See [`corrected`].
    pub fn correct(self, next: V) -> (after: Particle<V>)
        ensures
            after == corrected(self, next),
    {
        if self.is_pinned {
            self
        } else {
            Particle {
                pos: next,
                old_pos: self.old_pos,
                column: self.column,
                row: self.row,
                is_pinned: self.is_pinned,
            }
        }
    }

    /// See [`dragged`].
    pub fn drag(self, cursor: V) -> (after: Particle<V>)
        ensures
            after == dragged(self, cursor),
    {
        Particle {
            pos: cursor,
            old_pos: self.pos,
            column: self.column,
            row: self.row,
            is_pinned: self.is_pinned,
        }
    }
}

/// Integration and constraint correction leave a pinned particle where it
/// is, wherever they would take it.
pub proof fn lemma_pinned_stays<V>(particle: Particle<V>, next: V)
    requires
        particle.is_pinned,
    ensures
        integrated(particle, next) == particle,
        corrected(particle, next) == particle,
{
}

} // verus!
