//! Plane vectors with exact `i64` coordinates, and the spec-level vector
//! algebra the rest of the kernel states its contracts with.

use vstd::prelude::*;

verus! {

/// Largest absolute coordinate admitted for shape extents, placements and
/// margins. Keeping the inputs inside this range lets every intermediate
/// quantity of the kernel (sums of a few coordinates and sums of two squared
/// axis gaps) be computed in `i64` without overflow.
pub const COORD_LIMIT: i64 = 1048576;

/// Spec-level vector addition.
pub open spec fn vadd(a: (int, int), b: (int, int)) -> (int, int) {
    (a.0 + b.0, a.1 + b.1)
}

/// Spec-level vector subtraction.
pub open spec fn vsub(a: (int, int), b: (int, int)) -> (int, int) {
    (a.0 - b.0, a.1 - b.1)
}

/// Spec-level vector negation.
pub open spec fn vneg(a: (int, int)) -> (int, int) {
    (-a.0, -a.1)
}

/// Spec-level dot product.
pub open spec fn vdot(a: (int, int), b: (int, int)) -> int {
    a.0 * b.0 + a.1 * b.1
}

/// Division rounding towards zero, the semantics of `/` on machine
/// integers.
pub open spec fn tdiv(a: int, n: int) -> int {
    if a >= 0 {
        a / n
    } else {
        -((-a) / n)
    }
}

/// Both coordinates of `a` lie in `[-b, b]`.
pub open spec fn vbounded(a: (int, int), b: int) -> bool {
    &&& -b <= a.0 <= b
    &&& -b <= a.1 <= b
}

/// A vector (or point) of the plane with integer coordinates.
#[derive(Clone, Copy, PartialEq, Eq, Structural, Debug)]
pub struct Vec2 {
    pub x: i64,
    pub y: i64,
}

impl View for Vec2 {
    type V = (int, int);

    open spec fn view(&self) -> (int, int) {
        (self.x as int, self.y as int)
    }
}

impl Vec2 {
    /// Builds the vector `(x, y)`.
    pub fn new(x: i64, y: i64) -> (r: Vec2)
        ensures
            r@ == (x as int, y as int),
    {
        Vec2 { x, y }
    }

    /// The zero vector.
    pub fn zero() -> (r: Vec2)
        ensures
            r@ == (0int, 0int),
    {
        Vec2 { x: 0, y: 0 }
    }

    /// Whether this is the zero vector.
    pub fn is_zero(&self) -> (r: bool)
        ensures
            r == (self@ == (0int, 0int)),
    {
        self.x == 0 && self.y == 0
    }

    /// The dimension of the plane.
    pub fn dim() -> (r: usize)
        ensures
            r == 2,
    {
        2
    }

    /// Componentwise sum.
    pub fn add(&self, other: &Vec2) -> (r: Vec2)
        requires
            i64::MIN <= self.x + other.x <= i64::MAX,
            i64::MIN <= self.y + other.y <= i64::MAX,
        ensures
            r@ == vadd(self@, other@),
    {
        Vec2 { x: self.x + other.x, y: self.y + other.y }
    }

    /// Componentwise difference.
    pub fn sub(&self, other: &Vec2) -> (r: Vec2)
        requires
            i64::MIN <= self.x - other.x <= i64::MAX,
            i64::MIN <= self.y - other.y <= i64::MAX,
        ensures
            r@ == vsub(self@, other@),
    {
        Vec2 { x: self.x - other.x, y: self.y - other.y }
    }

    /// Componentwise negation.
    pub fn neg(&self) -> (r: Vec2)
        requires
            self.x > i64::MIN,
            self.y > i64::MIN,
        ensures
            r@ == vneg(self@),
    {
        Vec2 { x: -self.x, y: -self.y }
    }

    /// Scales both coordinates by `n`.
    pub fn mul(&self, n: i64) -> (r: Vec2)
        requires
            i64::MIN <= self.x * n <= i64::MAX,
            i64::MIN <= self.y * n <= i64::MAX,
        ensures
            r@ == (self.x * n, self.y * n),
    {
        Vec2 { x: self.x * n, y: self.y * n }
    }

    /// Divides both coordinates by `n`, rounding towards zero.
    pub fn div(&self, n: i64) -> (r: Vec2)
        requires
            n > 0,
            self.x > i64::MIN,
            self.y > i64::MIN,
        ensures
            r.x == tdiv(self.x as int, n as int),
            r.y == tdiv(self.y as int, n as int),
    {
        Vec2 { x: self.x / n, y: self.y / n }
    }

    /// Dot product.
    pub fn dot(&self, other: &Vec2) -> (r: i64)
        requires
            vbounded(self@, 0x4000_0000),
            vbounded(other@, 0x4000_0000),
        ensures
            r == vdot(self@, other@),
    {
        proof {
            lemma_mul_bound(self.x as int, other.x as int, 0x4000_0000);
            lemma_mul_bound(self.y as int, other.y as int, 0x4000_0000);
        }
        self.x * other.x + self.y * other.y
    }

    /// Squared euclidean norm.
    pub fn sqnorm(&self) -> (r: i64)
        requires
            vbounded(self@, 0x4000_0000),
        ensures
            r == vdot(self@, self@),
            r >= 0,
    {
        proof {
            lemma_square_nonneg(self.x as int);
            lemma_square_nonneg(self.y as int);
        }
        self.dot(self)
    }

    /// Euclidean norm, rounded down to the nearest integer.
    pub fn norm(&self) -> (r: i64)
        requires
            vbounded(self@, 0x4000_0000),
        ensures
            0 <= r,
            r * r <= vdot(self@, self@),
            (r + 1) * (r + 1) > vdot(self@, self@),
    {
        isqrt(self.sqnorm())
    }
}

/// `|a| <= b` and `|c| <= b` bound the product `a * c` by `b * b`.
pub proof fn lemma_mul_bound(a: int, c: int, b: int)
    requires
        0 <= b,
        -b <= a <= b,
        -b <= c <= b,
    ensures
        -(b * b) <= a * c <= b * b,
{
    assert(-(b * b) <= a * c <= b * b) by (nonlinear_arith)
        requires
            0 <= b,
            -b <= a <= b,
            -b <= c <= b,
    ;
}

/// A square is never negative.
proof fn lemma_square_nonneg(a: int)
    ensures
        a * a >= 0,
{
    assert(a * a >= 0) by (nonlinear_arith);
}

/// Squaring is monotone on the non-negative integers.
pub proof fn lemma_square_monotone(a: int, b: int)
    requires
        0 <= a <= b,
    ensures
        a * a <= b * b,
{
    assert(a * a <= b * b) by (nonlinear_arith)
        requires
            0 <= a <= b,
    ;
}

/// Integer square root, rounded down: the greatest `r` with `r * r <= n`.
pub fn isqrt(n: i64) -> (r: i64)
    requires
        0 <= n,
    ensures
        0 <= r,
        r * r <= n,
        (r + 1) * (r + 1) > n,
{
    let mut lo: i64 = 0;
    let mut hi: i64 = 3037000500;
    proof {
        assert((3037000500int) * 3037000500 > i64::MAX) by (nonlinear_arith);
    }
    while lo + 1 < hi
        invariant
            0 <= lo < hi <= 3037000500,
            lo * lo <= n,
            hi * hi > n,
            n <= i64::MAX,
        decreases hi - lo,
    {
        let mid: i64 = lo + (hi - lo) / 2;
        proof {
            lemma_square_monotone(mid as int, 3037000499);
            assert((3037000499int) * 3037000499 <= i64::MAX) by (nonlinear_arith);
        }
        if mid * mid <= n {
            lo = mid;
        } else {
            hi = mid;
        }
    }
    lo
}

} // verus!
