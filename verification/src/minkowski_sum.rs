//! Support-mapping based Minkowski-sum geometry.
//!
//! A Minkowski sum of two placed implicit shapes is itself an implicit
//! shape: its support point along a direction is the sum of the two
//! operands' support points along that direction, and its margin is the sum
//! of their margins. The sum is purely implicit: it borrows its operands
//! and copies no shape data, and the only way to obtain points of the sum
//! is through its support mapping. The support mapping of a sum ignores
//! the placement argument it receives (the sum already lives in the
//! combined local frame), which the [`Identity`] placement type records.
//!
//! The annotated variant carries, for every computed sum point, the two
//! operand support points it was built from, so that an iterative distance
//! algorithm running on the sum can afterwards reconstruct the witness
//! point on each original shape.

use vstd::prelude::*;
use crate::vec2::{Vec2, vadd, vsub, vneg, vdot, vbounded, tdiv, lemma_mul_bound};
use crate::implicit::{HasMargin, Implicit, Reflection};
use crate::placement::Identity;

verus! {

/// An implicit representation of the configuration-space obstacle of two
/// shapes: the Minkowski sum of the first and the reflection of the
/// second. The origin lies inside it exactly when the shapes overlap.
pub type CSO<'a, M, G1, G2> = MinkowskiSum<'a, M, G1, Reflection<'a, G2>>;

/// The annotated variant of [`CSO`], whose support points carry the two
/// operand points they came from.
pub type AnnotatedCSO<'a, M, G1, G2> = AnnotatedMinkowskiSum<'a, M, G1, Reflection<'a, G2>>;

/// Implicit representation of the Minkowski sum of two placed shapes.
///
/// * `G1`: type of the first shape of the sum.
/// * `G2`: type of the second shape of the sum.
pub struct MinkowskiSum<'a, M, G1, G2> {
    /// Placement of the first shape.
    pub m1: &'a M,
    /// The first shape.
    pub g1: &'a G1,
    /// Placement of the second shape.
    pub m2: &'a M,
    /// The second shape.
    pub g2: &'a G2,
}

impl<'a, M, G1, G2> MinkowskiSum<'a, M, G1, G2> {
    /// Builds the Minkowski sum of two placed shapes. Since the
    /// representation is implicit, this costs constant time.
    pub fn new(m1: &'a M, g1: &'a G1, m2: &'a M, g2: &'a G2) -> (r: MinkowskiSum<'a, M, G1, G2>)
        ensures
            r.m1 == m1,
            r.g1 == g1,
            r.m2 == m2,
            r.g2 == g2,
    {
        MinkowskiSum { m1, g1, m2, g2 }
    }
}

impl<'a, M, G1: HasMargin, G2: HasMargin> HasMargin for MinkowskiSum<'a, M, G1, G2> {
    open spec fn margin_spec(&self) -> int {
        self.g1.margin_spec() + self.g2.margin_spec()
    }

    open spec fn margin_inv(&self) -> bool {
        &&& self.g1.margin_inv()
        &&& self.g2.margin_inv()
        &&& self.g1.margin_spec() + self.g2.margin_spec() <= i64::MAX
    }

    proof fn margin_props(&self) {
        self.g1.margin_props();
        self.g2.margin_props();
    }

    fn margin(&self) -> (r: i64) {
        proof {
            self.g1.margin_props();
            self.g2.margin_props();
        }
        self.g1.margin() + self.g2.margin()
    }
}

impl<'a, M, G1: Implicit<M>, G2: Implicit<M>> Implicit<Identity> for MinkowskiSum<'a, M, G1, G2> {
    open spec fn inv(&self) -> bool {
        &&& self.g1.inv()
        &&& self.g2.inv()
        &&& self.g1.m_ok(self.m1)
        &&& self.g2.m_ok(self.m2)
        &&& self.g1.sup_bound() + self.g2.sup_bound() <= i64::MAX
    }

    open spec fn m_ok(&self, m: &Identity) -> bool {
        true
    }

    open spec fn sup_bound(&self) -> int {
        self.g1.sup_bound() + self.g2.sup_bound()
    }

    open spec fn support_spec(&self, m: &Identity, dir: (int, int)) -> (int, int) {
        vadd(self.g1.support_spec(self.m1, dir), self.g2.support_spec(self.m2, dir))
    }

    open spec fn support_wo_margin_spec(&self, m: &Identity, dir: (int, int)) -> (int, int) {
        vadd(
            self.g1.support_wo_margin_spec(self.m1, dir),
            self.g2.support_wo_margin_spec(self.m2, dir),
        )
    }

    proof fn sup_bound_props(&self) {
        self.g1.sup_bound_props();
        self.g2.sup_bound_props();
    }

    fn support_point(&self, _m: &Identity, dir: &Vec2) -> (r: Vec2) {
        let s1 = self.g1.support_point(self.m1, dir);
        let s2 = self.g2.support_point(self.m2, dir);
        proof {
            self.g1.sup_bound_props();
            self.g2.sup_bound_props();
        }
        s1.add(&s2)
    }

    fn support_point_without_margin(&self, _m: &Identity, dir: &Vec2) -> (r: Vec2) {
        let s1 = self.g1.support_point_without_margin(self.m1, dir);
        let s2 = self.g2.support_point_without_margin(self.m2, dir);
        proof {
            self.g1.sup_bound_props();
            self.g2.sup_bound_props();
        }
        s1.add(&s2)
    }
}

/// Same as [`MinkowskiSum`], but its support mapping also reports the
/// support points of the two wrapped shapes that produced each sum point.
pub struct AnnotatedMinkowskiSum<'a, M, G1, G2> {
    /// Placement of the first shape.
    pub m1: &'a M,
    /// The first shape.
    pub g1: &'a G1,
    /// Placement of the second shape.
    pub m2: &'a M,
    /// The second shape.
    pub g2: &'a G2,
}

impl<'a, M, G1, G2> AnnotatedMinkowskiSum<'a, M, G1, G2> {
    /// Builds the annotated Minkowski sum of two placed shapes in constant
    /// time.
    pub fn new(m1: &'a M, g1: &'a G1, m2: &'a M, g2: &'a G2) -> (r: AnnotatedMinkowskiSum<
        'a,
        M,
        G1,
        G2,
    >)
        ensures
            r.m1 == m1,
            r.g1 == g1,
            r.m2 == m2,
            r.g2 == g2,
    {
        AnnotatedMinkowskiSum { m1, g1, m2, g2 }
    }
}

impl<'a, M, G1: HasMargin, G2: HasMargin> HasMargin for AnnotatedMinkowskiSum<'a, M, G1, G2> {
    open spec fn margin_spec(&self) -> int {
        self.g1.margin_spec() + self.g2.margin_spec()
    }

    open spec fn margin_inv(&self) -> bool {
        &&& self.g1.margin_inv()
        &&& self.g2.margin_inv()
        &&& self.g1.margin_spec() + self.g2.margin_spec() <= i64::MAX
    }

    proof fn margin_props(&self) {
        self.g1.margin_props();
        self.g2.margin_props();
    }

    fn margin(&self) -> (r: i64) {
        proof {
            self.g1.margin_props();
            self.g2.margin_props();
        }
        self.g1.margin() + self.g2.margin()
    }
}

impl<'a, M, G1: Implicit<M>, G2: Implicit<M>> AnnotatedMinkowskiSum<'a, M, G1, G2> {
    /// Well-formedness of the annotated sum: both operands are well formed,
    /// both accept their placement, and the operands' support points can be
    /// added without leaving machine integers.
    pub open spec fn inv(&self) -> bool {
        &&& self.g1.inv()
        &&& self.g2.inv()
        &&& self.g1.m_ok(self.m1)
        &&& self.g2.m_ok(self.m2)
        &&& self.g1.sup_bound() + self.g2.sup_bound() <= i64::MAX
    }

    /// The annotated support point along the direction carried by
    /// `dir.point`: each operand's support point, and their sum. The
    /// placement argument is ignored; the sum lives in the combined local
    /// frame.
    pub fn support_point(&self, _m: &Identity, dir: &AnnotatedPoint) -> (r: AnnotatedPoint)
        requires
            self.inv(),
            dir.point.x > i64::MIN,
            dir.point.y > i64::MIN,
        ensures
            r.orig1@ == self.g1.support_spec(self.m1, dir.point@),
            r.orig2@ == self.g2.support_spec(self.m2, dir.point@),
            r.point@ == vadd(r.orig1@, r.orig2@),
    {
        let orig1 = self.g1.support_point(self.m1, &dir.point);
        let orig2 = self.g2.support_point(self.m2, &dir.point);
        proof {
            self.g1.sup_bound_props();
            self.g2.sup_bound_props();
        }
        let point = orig1.add(&orig2);
        AnnotatedPoint::new(orig1, orig2, point)
    }

    /// The margin-free annotated support point.
    pub fn support_point_without_margin(&self, _m: &Identity, dir: &AnnotatedPoint) -> (r:
        AnnotatedPoint)
        requires
            self.inv(),
            dir.point.x > i64::MIN,
            dir.point.y > i64::MIN,
        ensures
            r.orig1@ == self.g1.support_wo_margin_spec(self.m1, dir.point@),
            r.orig2@ == self.g2.support_wo_margin_spec(self.m2, dir.point@),
            r.point@ == vadd(r.orig1@, r.orig2@),
    {
        let orig1 = self.g1.support_point_without_margin(self.m1, &dir.point);
        let orig2 = self.g2.support_point_without_margin(self.m2, &dir.point);
        proof {
            self.g1.sup_bound_props();
            self.g2.sup_bound_props();
        }
        let point = orig1.add(&orig2);
        AnnotatedPoint::new(orig1, orig2, point)
    }
}

/// A point of a Minkowski sum together with the two operand points it is
/// the sum of. Equality and all distance-like queries read only the `point`
/// field; the two origins are carried along unchanged so that a caller can
/// later recover the witness point on each original shape.
#[derive(Clone, Copy, Debug)]
pub struct AnnotatedPoint {
    /// The contributing support point of the first shape.
    pub orig1: Vec2,
    /// The contributing support point of the second shape.
    pub orig2: Vec2,
    /// The sum point; for points produced by an annotated support query,
    /// always exactly `orig1 + orig2`.
    pub point: Vec2,
}

impl PartialEq for AnnotatedPoint {
    /// Equality compares the sum points alone, never the origins.
    fn eq(&self, other: &AnnotatedPoint) -> (r: bool) {
        self.point.x == other.point.x && self.point.y == other.point.y
    }
}

impl vstd::std_specs::cmp::PartialEqSpecImpl for AnnotatedPoint {
    open spec fn obeys_eq_spec() -> bool {
        true
    }

    open spec fn eq_spec(&self, other: &AnnotatedPoint) -> bool {
        self.point@ == other.point@
    }
}

impl AnnotatedPoint {
    /// Builds an annotated point from its three fields.
    pub fn new(orig1: Vec2, orig2: Vec2, point: Vec2) -> (r: AnnotatedPoint)
        ensures
            r.orig1 == orig1,
            r.orig2 == orig2,
            r.point == point,
    {
        AnnotatedPoint { orig1, orig2, point }
    }

    /// The sum point.
    pub fn point(&self) -> (r: Vec2)
        ensures
            r == self.point,
    {
        self.point
    }

    /// The contributing point of the first shape.
    pub fn orig1(&self) -> (r: Vec2)
        ensures
            r == self.orig1,
    {
        self.orig1
    }

    /// The contributing point of the second shape.
    pub fn orig2(&self) -> (r: Vec2)
        ensures
            r == self.orig2,
    {
        self.orig2
    }

    /// Lifts a plain direction into an annotated point with zero origins.
    /// A direction is not itself a located point, so its origins carry no
    /// meaning: they are a placeholder for the first support query of a
    /// search and must never be read as contact data.
    pub fn new_invalid(point: Vec2) -> (r: AnnotatedPoint)
        ensures
            r.orig1@ == (0int, 0int),
            r.orig2@ == (0int, 0int),
            r.point == point,
    {
        AnnotatedPoint { orig1: Vec2::zero(), orig2: Vec2::zero(), point }
    }

    /// The annotated point with all three fields zero.
    pub fn zero() -> (r: AnnotatedPoint)
        ensures
            r.orig1@ == (0int, 0int),
            r.orig2@ == (0int, 0int),
            r.point@ == (0int, 0int),
    {
        AnnotatedPoint { orig1: Vec2::zero(), orig2: Vec2::zero(), point: Vec2::zero() }
    }

    /// Whether the sum point is zero; the origins are not consulted.
    pub fn is_zero(&self) -> (r: bool)
        ensures
            r == (self.point@ == (0int, 0int)),
    {
        self.point.is_zero()
    }

    /// The dimension of the plane.
    pub fn dim() -> (r: usize)
        ensures
            r == 2,
    {
        2
    }

    /// Componentwise sum of all three fields.
    pub fn add(&self, other: &AnnotatedPoint) -> (r: AnnotatedPoint)
        requires
            i64::MIN <= self.orig1.x + other.orig1.x <= i64::MAX,
            i64::MIN <= self.orig1.y + other.orig1.y <= i64::MAX,
            i64::MIN <= self.orig2.x + other.orig2.x <= i64::MAX,
            i64::MIN <= self.orig2.y + other.orig2.y <= i64::MAX,
            i64::MIN <= self.point.x + other.point.x <= i64::MAX,
            i64::MIN <= self.point.y + other.point.y <= i64::MAX,
        ensures
            r.orig1@ == vadd(self.orig1@, other.orig1@),
            r.orig2@ == vadd(self.orig2@, other.orig2@),
            r.point@ == vadd(self.point@, other.point@),
    {
        AnnotatedPoint {
            orig1: self.orig1.add(&other.orig1),
            orig2: self.orig2.add(&other.orig2),
            point: self.point.add(&other.point),
        }
    }

    /// Componentwise difference of all three fields.
    pub fn sub(&self, other: &AnnotatedPoint) -> (r: AnnotatedPoint)
        requires
            i64::MIN <= self.orig1.x - other.orig1.x <= i64::MAX,
            i64::MIN <= self.orig1.y - other.orig1.y <= i64::MAX,
            i64::MIN <= self.orig2.x - other.orig2.x <= i64::MAX,
            i64::MIN <= self.orig2.y - other.orig2.y <= i64::MAX,
            i64::MIN <= self.point.x - other.point.x <= i64::MAX,
            i64::MIN <= self.point.y - other.point.y <= i64::MAX,
        ensures
            r.orig1@ == vsub(self.orig1@, other.orig1@),
            r.orig2@ == vsub(self.orig2@, other.orig2@),
            r.point@ == vsub(self.point@, other.point@),
    {
        AnnotatedPoint {
            orig1: self.orig1.sub(&other.orig1),
            orig2: self.orig2.sub(&other.orig2),
            point: self.point.sub(&other.point),
        }
    }

    /// Componentwise negation of all three fields.
    pub fn neg(&self) -> (r: AnnotatedPoint)
        requires
            self.orig1.x > i64::MIN,
            self.orig1.y > i64::MIN,
            self.orig2.x > i64::MIN,
            self.orig2.y > i64::MIN,
            self.point.x > i64::MIN,
            self.point.y > i64::MIN,
        ensures
            r.orig1@ == vneg(self.orig1@),
            r.orig2@ == vneg(self.orig2@),
            r.point@ == vneg(self.point@),
    {
        AnnotatedPoint { orig1: self.orig1.neg(), orig2: self.orig2.neg(), point: self.point.neg() }
    }

    /// Scales all three fields by `n`.
    pub fn mul(&self, n: i64) -> (r: AnnotatedPoint)
        requires
            vbounded(self.orig1@, 0x4000_0000),
            vbounded(self.orig2@, 0x4000_0000),
            vbounded(self.point@, 0x4000_0000),
            -0x4000_0000 <= n <= 0x4000_0000,
        ensures
            r.orig1@ == (self.orig1.x * n, self.orig1.y * n),
            r.orig2@ == (self.orig2.x * n, self.orig2.y * n),
            r.point@ == (self.point.x * n, self.point.y * n),
    {
        proof {
            lemma_mul_bound(self.orig1.x as int, n as int, 0x4000_0000);
            lemma_mul_bound(self.orig1.y as int, n as int, 0x4000_0000);
            lemma_mul_bound(self.orig2.x as int, n as int, 0x4000_0000);
            lemma_mul_bound(self.orig2.y as int, n as int, 0x4000_0000);
            lemma_mul_bound(self.point.x as int, n as int, 0x4000_0000);
            lemma_mul_bound(self.point.y as int, n as int, 0x4000_0000);
        }
        AnnotatedPoint { orig1: self.orig1.mul(n), orig2: self.orig2.mul(n), point: self.point.mul(
            n,
        ) }
    }

    /// Divides all three fields by `n`, rounding towards zero.
    pub fn div(&self, n: i64) -> (r: AnnotatedPoint)
        requires
            n > 0,
            self.orig1.x > i64::MIN,
            self.orig1.y > i64::MIN,
            self.orig2.x > i64::MIN,
            self.orig2.y > i64::MIN,
            self.point.x > i64::MIN,
            self.point.y > i64::MIN,
        ensures
            r.orig1@ == (tdiv(self.orig1.x as int, n as int), tdiv(self.orig1.y as int, n as int)),
            r.orig2@ == (tdiv(self.orig2.x as int, n as int), tdiv(self.orig2.y as int, n as int)),
            r.point@ == (tdiv(self.point.x as int, n as int), tdiv(self.point.y as int, n as int)),
    {
        AnnotatedPoint { orig1: self.orig1.div(n), orig2: self.orig2.div(n), point: self.point.div(
            n,
        ) }
    }

    /// Dot product, taken on the sum points alone.
    pub fn dot(&self, other: &AnnotatedPoint) -> (r: i64)
        requires
            vbounded(self.point@, 0x4000_0000),
            vbounded(other.point@, 0x4000_0000),
        ensures
            r == vdot(self.point@, other.point@),
    {
        self.point.dot(&other.point)
    }

    /// `(self - other) . third`, taken on the sum points alone.
    pub fn sub_dot(&self, other: &AnnotatedPoint, third: &AnnotatedPoint) -> (r: i64)
        requires
            vbounded(self.point@, 0x2000_0000),
            vbounded(other.point@, 0x2000_0000),
            vbounded(third.point@, 0x4000_0000),
        ensures
            r == vdot(vsub(self.point@, other.point@), third.point@),
    {
        let d = self.point.sub(&other.point);
        d.dot(&third.point)
    }

    /// Squared norm of the sum point; the origins are not consulted.
    pub fn sqnorm(&self) -> (r: i64)
        requires
            vbounded(self.point@, 0x4000_0000),
        ensures
            r == vdot(self.point@, self.point@),
            r >= 0,
    {
        self.point.sqnorm()
    }

    /// Norm of the sum point, rounded down to the nearest integer; the
    /// origins are not consulted.
    pub fn norm(&self) -> (r: i64)
        requires
            vbounded(self.point@, 0x4000_0000),
        ensures
            0 <= r,
            r * r <= vdot(self.point@, self.point@),
            (r + 1) * (r + 1) > vdot(self.point@, self.point@),
    {
        self.point.norm()
    }
}

/// Computes the annotated support point of the configuration-space obstacle
/// of two placed shapes (the Minkowski sum of the first shape and the
/// reflection of the second) along `dir`. The result records which support
/// point of each original shape built it.
pub fn cso_support_point<'a, M, G1: Implicit<M>, G2: Implicit<M>>(
    m1: &M,
    g1: &'a G1,
    m2: &M,
    g2: &'a G2,
    dir: Vec2,
) -> (r: AnnotatedPoint)
    requires
        g1.inv(),
        g2.inv(),
        g1.m_ok(m1),
        g2.m_ok(m2),
        g1.sup_bound() + g2.sup_bound() <= i64::MAX,
        dir.x > i64::MIN,
        dir.y > i64::MIN,
    ensures
        r.orig1@ == g1.support_spec(m1, dir@),
        r.orig2@ == vneg(g2.support_spec(m2, vneg(dir@))),
        r.point@ == vadd(r.orig1@, r.orig2@),
{
    let rg2 = Reflection::new(g2);
    let cso = AnnotatedMinkowskiSum::new(m1, g1, m2, &rg2);
    cso.support_point(&Identity::new(), &AnnotatedPoint::new_invalid(dir))
}

/// Same as [`cso_support_point`], on the raw margin-free hulls.
pub fn cso_support_point_without_margin<'a, M, G1: Implicit<M>, G2: Implicit<M>>(
    m1: &M,
    g1: &'a G1,
    m2: &M,
    g2: &'a G2,
    dir: Vec2,
) -> (r: AnnotatedPoint)
    requires
        g1.inv(),
        g2.inv(),
        g1.m_ok(m1),
        g2.m_ok(m2),
        g1.sup_bound() + g2.sup_bound() <= i64::MAX,
        dir.x > i64::MIN,
        dir.y > i64::MIN,
    ensures
        r.orig1@ == g1.support_wo_margin_spec(m1, dir@),
        r.orig2@ == vneg(g2.support_wo_margin_spec(m2, vneg(dir@))),
        r.point@ == vadd(r.orig1@, r.orig2@),
{
    let rg2 = Reflection::new(g2);
    let cso = AnnotatedMinkowskiSum::new(m1, g1, m2, &rg2);
    cso.support_point_without_margin(&Identity::new(), &AnnotatedPoint::new_invalid(dir))
}

} // verus!
