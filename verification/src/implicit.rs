//! Implicit (support-mapped) shapes: the capability contracts every convex
//! shape offers the kernel, a reflection adapter, and a concrete rounded
//! cuboid implementing them.
//!
//! An implicit shape is anything that can answer a support query: the point
//! of the shape farthest along a given direction. Shapes may carry a margin,
//! a rounding thickness by which the raw support hull is grown; the
//! margin-free support query returns the raw hull's point.

use vstd::prelude::*;
use crate::vec2::{Vec2, vneg, vbounded, COORD_LIMIT};
use crate::placement::Placement;

verus! {

/// A shape with a margin: a fixed rounding thickness added to its raw
/// support hull for robustness.
pub trait HasMargin {
    /// The margin as a mathematical integer.
    spec fn margin_spec(&self) -> int;

    /// Well-formedness of the data the margin is read from.
    spec fn margin_inv(&self) -> bool;

    /// A well-formed margin is non-negative and representable.
    proof fn margin_props(&self)
        requires
            self.margin_inv(),
        ensures
            0 <= self.margin_spec() <= i64::MAX,
    ;

    /// Returns the shape's margin.
    fn margin(&self) -> (r: i64)
        requires
            self.margin_inv(),
        ensures
            r == self.margin_spec(),
    ;
}

/// A shape defined implicitly by its support mapping, under placements of
/// type `M`. The kernel never looks inside a shape: it only ever asks for
/// the farthest point along a direction.
pub trait Implicit<M>: HasMargin {
    /// Well-formedness of the shape's own data.
    spec fn inv(&self) -> bool;

    /// Which placements the shape accepts for its support queries.
    spec fn m_ok(&self, m: &M) -> bool;

    /// A bound on the absolute coordinates of every support point the shape
    /// returns, used by combinators to stay within machine integers.
    spec fn sup_bound(&self) -> int;

    /// The support point (margin included), as a pair of mathematical
    /// integers.
    spec fn support_spec(&self, m: &M, dir: (int, int)) -> (int, int);

    /// The margin-free support point.
    spec fn support_wo_margin_spec(&self, m: &M, dir: (int, int)) -> (int, int);

    /// The coordinate bound of a well-formed shape is representable.
    proof fn sup_bound_props(&self)
        requires
            self.inv(),
        ensures
            0 <= self.sup_bound() <= i64::MAX,
    ;

    /// The point of the margin-grown shape farthest along `dir`.
    fn support_point(&self, m: &M, dir: &Vec2) -> (r: Vec2)
        requires
            self.inv(),
            self.m_ok(m),
            dir.x > i64::MIN,
            dir.y > i64::MIN,
        ensures
            r@ == self.support_spec(m, dir@),
            vbounded(r@, self.sup_bound()),
    ;

    /// The point of the raw (margin-free) shape farthest along `dir`.
    fn support_point_without_margin(&self, m: &M, dir: &Vec2) -> (r: Vec2)
        requires
            self.inv(),
            self.m_ok(m),
            dir.x > i64::MIN,
            dir.y > i64::MIN,
        ensures
            r@ == self.support_wo_margin_spec(m, dir@),
            vbounded(r@, self.sup_bound()),
    ;
}

/// The reflection of a shape about the origin: its support point along `dir`
/// is the negation of the wrapped shape's support point along `-dir`.
///
/// Combined with a Minkowski sum, `sum(shape1, reflect(shape2))` is the
/// configuration-space obstacle of the two shapes: the origin lies inside it
/// exactly when the shapes overlap.
pub struct Reflection<'a, G> {
    /// The wrapped shape.
    pub g: &'a G,
}

impl<'a, G> Reflection<'a, G> {
    /// Builds the reflection of `g`. The adapter borrows `g` and copies
    /// nothing.
    pub fn new(g: &'a G) -> (r: Reflection<'a, G>)
        ensures
            r.g == g,
    {
        Reflection { g }
    }
}

impl<'a, G: HasMargin> HasMargin for Reflection<'a, G> {
    open spec fn margin_spec(&self) -> int {
        self.g.margin_spec()
    }

    open spec fn margin_inv(&self) -> bool {
        self.g.margin_inv()
    }

    proof fn margin_props(&self) {
        self.g.margin_props();
    }

    fn margin(&self) -> (r: i64) {
        self.g.margin()
    }
}

impl<'a, M, G: Implicit<M>> Implicit<M> for Reflection<'a, G> {
    open spec fn inv(&self) -> bool {
        self.g.inv()
    }

    open spec fn m_ok(&self, m: &M) -> bool {
        self.g.m_ok(m)
    }

    open spec fn sup_bound(&self) -> int {
        self.g.sup_bound()
    }

    open spec fn support_spec(&self, m: &M, dir: (int, int)) -> (int, int) {
        vneg(self.g.support_spec(m, vneg(dir)))
    }

    open spec fn support_wo_margin_spec(&self, m: &M, dir: (int, int)) -> (int, int) {
        vneg(self.g.support_wo_margin_spec(m, vneg(dir)))
    }

    proof fn sup_bound_props(&self) {
        self.g.sup_bound_props();
    }

    fn support_point(&self, m: &M, dir: &Vec2) -> (r: Vec2) {
        let neg_dir = dir.neg();
        let s = self.g.support_point(m, &neg_dir);
        proof {
            self.g.sup_bound_props();
        }
        s.neg()
    }

    fn support_point_without_margin(&self, m: &M, dir: &Vec2) -> (r: Vec2) {
        let neg_dir = dir.neg();
        let s = self.g.support_point_without_margin(m, &neg_dir);
        proof {
            self.g.sup_bound_props();
        }
        s.neg()
    }
}

/// Reflecting a shape twice yields the original support mapping and margin.
pub proof fn lemma_reflection_involution<'a, M, G: Implicit<M>>(
    rr: &Reflection<'a, Reflection<'a, G>>,
    m: &M,
    dir: (int, int),
)
    ensures
        rr.support_spec(m, dir) == rr.g.g.support_spec(m, dir),
        rr.support_wo_margin_spec(m, dir) == rr.g.g.support_wo_margin_spec(m, dir),
        rr.margin_spec() == rr.g.g.margin_spec(),
{
}

/// An axis-aligned rectangle centered at the shape's local origin, given by
/// its half-extents, with a rounding margin. Its margin-grown hull is the
/// rectangle grown by the margin along both axes.
#[derive(Clone, Copy, PartialEq, Eq, Structural, Debug)]
pub struct Cuboid {
    /// Half the rectangle's width and height; both non-negative.
    pub half_extents: Vec2,
    /// The rounding margin; non-negative.
    pub margin: i64,
}

impl Cuboid {
    /// Builds a cuboid from its half-extents and margin.
    pub fn new(half_extents: Vec2, margin: i64) -> (r: Cuboid)
        ensures
            r.half_extents == half_extents,
            r.margin == margin,
    {
        Cuboid { half_extents, margin }
    }
}

impl HasMargin for Cuboid {
    open spec fn margin_spec(&self) -> int {
        self.margin as int
    }

    open spec fn margin_inv(&self) -> bool {
        0 <= self.margin <= COORD_LIMIT
    }

    proof fn margin_props(&self) {
    }

    fn margin(&self) -> (r: i64) {
        self.margin
    }
}

impl Implicit<Placement> for Cuboid {
    open spec fn inv(&self) -> bool {
        &&& 0 <= self.half_extents.x <= COORD_LIMIT
        &&& 0 <= self.half_extents.y <= COORD_LIMIT
        &&& 0 <= self.margin <= COORD_LIMIT
    }

    open spec fn m_ok(&self, m: &Placement) -> bool {
        m.wf()
    }

    open spec fn sup_bound(&self) -> int {
        3 * COORD_LIMIT as int
    }

    open spec fn support_spec(&self, m: &Placement, dir: (int, int)) -> (int, int) {
        (
            m.translation.x + (if dir.0 >= 0 {
                self.half_extents.x + self.margin
            } else {
                -(self.half_extents.x + self.margin)
            }),
            m.translation.y + (if dir.1 >= 0 {
                self.half_extents.y + self.margin
            } else {
                -(self.half_extents.y + self.margin)
            }),
        )
    }

    open spec fn support_wo_margin_spec(&self, m: &Placement, dir: (int, int)) -> (int, int) {
        (
            m.translation.x + (if dir.0 >= 0 {
                self.half_extents.x as int
            } else {
                -self.half_extents.x as int
            }),
            m.translation.y + (if dir.1 >= 0 {
                self.half_extents.y as int
            } else {
                -self.half_extents.y as int
            }),
        )
    }

    proof fn sup_bound_props(&self) {
    }

    fn support_point(&self, m: &Placement, dir: &Vec2) -> (r: Vec2) {
        let gx: i64 = self.half_extents.x + self.margin;
        let gy: i64 = self.half_extents.y + self.margin;
        let x: i64 = if dir.x >= 0 {
            m.translation.x + gx
        } else {
            m.translation.x - gx
        };
        let y: i64 = if dir.y >= 0 {
            m.translation.y + gy
        } else {
            m.translation.y - gy
        };
        Vec2 { x, y }
    }

    fn support_point_without_margin(&self, m: &Placement, dir: &Vec2) -> (r: Vec2) {
        let x: i64 = if dir.x >= 0 {
            m.translation.x + self.half_extents.x
        } else {
            m.translation.x - self.half_extents.x
        };
        let y: i64 = if dir.y >= 0 {
            m.translation.y + self.half_extents.y
        } else {
            m.translation.y - self.half_extents.y
        };
        Vec2 { x, y }
    }
}

} // verus!
