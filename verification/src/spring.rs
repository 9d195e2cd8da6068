//! Distance constraints between two particles of a cloth.

use vstd::prelude::*;

verus! {

/// What a constraint resists. The kind fixes the rest length in units of the
/// grid spacing.
#[derive(Clone, Copy, Debug, PartialEq, Eq, Structural)]
pub enum SpringKind {
    /// Joins direct neighbours of a row or a column, and resists stretching.
    Stretch,
    /// Joins particles two cells apart in a row or a column, and resists
    /// folding.
    Bend,
    /// Joins diagonal neighbours, and resists skewing.
    Shear,
}

impl SpringKind {
    /// The squared rest length of a constraint of this kind, in units of the
    /// squared grid spacing: 1 for neighbours, 4 for particles two cells
    /// apart, 2 for a diagonal.
    pub open spec fn rest_squared(self) -> int {
        match self {
            SpringKind::Stretch => 1,
            SpringKind::Bend => 4,
            SpringKind::Shear => 2,
        }
    }

    /// Computes [`SpringKind::rest_squared`].
    pub fn squared_rest_ratio(self) -> (ratio: u8)
        ensures
            ratio == self.rest_squared(),
    {
        match self {
            SpringKind::Stretch => 1,
            SpringKind::Bend => 4,
            SpringKind::Shear => 2,
        }
    }
}

/// A distance constraint between the particles with indices `p1_idx` and
/// `p2_idx`.
#[derive(Clone, Copy, Debug, PartialEq, Eq, Structural)]
pub struct Spring {
    pub p1_idx: usize,
    pub p2_idx: usize,
    pub kind: SpringKind,
}

/// The mathematical content of a [`Spring`]: two particle indices and a kind.
pub struct SpringModel {
    pub first: int,
    pub second: int,
    pub kind: SpringKind,
}

impl View for Spring {
    type V = SpringModel;

    open spec fn view(&self) -> SpringModel {
        SpringModel { first: self.p1_idx as int, second: self.p2_idx as int, kind: self.kind }
    }
}

/// The models of a sequence of springs, in the same order.
pub open spec fn models(springs: Seq<Spring>) -> Seq<SpringModel> {
    springs.map_values(|s: Spring| s@)
}

} // verus!
