//! Placements of shapes in the plane.
//!
//! A placement is the rigid transform applied to a shape before a query.
//! Over exact integer coordinates the only rigid motions that can be
//! represented exactly are translations, so a placement here carries a
//! translation vector. Every placement is invertible, and the inverse is
//! computed by negating the translation.

use vstd::prelude::*;
use crate::vec2::{Vec2, vadd, vneg, vbounded, COORD_LIMIT};

verus! {

/// A translation placement: the shape's local origin is moved to
/// `translation`.
#[derive(Clone, Copy, PartialEq, Eq, Structural, Debug)]
pub struct Placement {
    pub translation: Vec2,
}

impl Placement {
    /// Every coordinate of the translation lies within [`COORD_LIMIT`].
    pub open spec fn wf(&self) -> bool {
        vbounded(self.translation@, COORD_LIMIT as int)
    }

    /// Builds the placement translating by `t`.
    pub fn new(t: Vec2) -> (r: Placement)
        ensures
            r.translation == t,
    {
        Placement { translation: t }
    }

    /// The identity placement: no displacement at all.
    pub fn identity() -> (r: Placement)
        ensures
            r.translation@ == (0int, 0int),
            r.wf(),
    {
        Placement { translation: Vec2 { x: 0, y: 0 } }
    }

    /// The inverse placement. Placements are always invertible: the inverse
    /// of a translation is the opposite translation.
    pub fn inverse(&self) -> (r: Placement)
        requires
            self.wf(),
        ensures
            r.translation@ == vneg(self.translation@),
            r.wf(),
    {
        Placement { translation: self.translation.neg() }
    }

    /// The composition `self` after `other`: applying the result moves a
    /// point by `other`'s translation, then by `self`'s.
    pub fn compose(&self, other: &Placement) -> (r: Placement)
        requires
            self.wf(),
            other.wf(),
        ensures
            r.translation@ == vadd(self.translation@, other.translation@),
    {
        Placement { translation: self.translation.add(&other.translation) }
    }

}

/// The identity transform, used as the placement of an implicit shape that
/// already lives in the combined local frame of its two operands (a
/// Minkowski sum ignores the placement argument of its support queries).
pub struct Identity;

impl Identity {
    /// Builds the identity transform.
    pub fn new() -> (r: Identity) {
        Identity
    }
}

} // verus!
