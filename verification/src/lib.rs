//! A rectangular cloth of particles and distance constraints, stepped frame by
//! frame: built over a grid, integrated, relaxed, torn, cut and dragged.
//!
//! The crate is generic in the type of a point of the plane and never
//! computes with points. The host supplies the arithmetic as functions: where
//! a particle starts, where a free particle goes next, whether a constraint
//! still holds, how it is corrected, how far a particle is from the pointer.
//! The crate decides which particle and which constraint is asked about, in
//! which order, and what becomes of the answers: pinned particles stay,
//! constraints that were taken out never return, and no constraint joins a
//! particle that is not there.

mod builder;
pub mod cloth;
pub mod interaction;
pub mod particle;
pub mod remainder;
pub mod solver;
pub mod spring;
pub mod topology;
