//! Ray casting against an axis-aligned box, with exact rational times of
//! impact.
//!
//! A ray starts at an origin and runs along a direction; the point at
//! parameter `t` is `origin + t * dir`. Over integer coordinates the time
//! of impact against a box is a rational number, so the cast returns it as
//! a numerator and a positive denominator. A solid cast treats the box as
//! full — a ray starting inside hits at time zero; a non-solid cast
//! treats it as a hollow shell and reports a boundary crossing, which for
//! a ray starting inside is the time of exit.

use vstd::prelude::*;
use crate::vec2::{Vec2, COORD_LIMIT, lemma_mul_bound};
use crate::proximity::Aabb;

verus! {

/// A ray: all points `origin + t * dir` for `t >= 0`.
#[derive(Clone, Copy, PartialEq, Eq, Structural, Debug)]
pub struct Ray {
    /// The ray's starting point.
    pub origin: Vec2,
    /// The ray's direction; it need not be normalized.
    pub dir: Vec2,
}

impl Ray {
    /// Builds the ray starting at `origin` along `dir`.
    pub fn new(origin: Vec2, dir: Vec2) -> (r: Ray)
        ensures
            r.origin == origin,
            r.dir == dir,
    {
        Ray { origin, dir }
    }
}

/// The point of `r` at parameter `n / d` (for `d > 0`) lies in the closed
/// box `b`, stated with the denominator cleared.
pub open spec fn ray_in_box_at(r: Ray, b: Aabb, n: int, d: int) -> bool {
    &&& b.mins.x * d <= r.origin.x * d + r.dir.x * n <= b.maxs.x * d
    &&& b.mins.y * d <= r.origin.y * d + r.dir.y * n <= b.maxs.y * d
}

/// The point of `r` at parameter `n / d` (for `d > 0`) has some
/// coordinate on the line of a face of `b` (whether or not the point lies
/// in the box).
pub open spec fn on_face_line(r: Ray, b: Aabb, n: int, d: int) -> bool {
    ||| r.origin.x * d + r.dir.x * n == b.mins.x * d
    ||| r.origin.x * d + r.dir.x * n == b.maxs.x * d
    ||| r.origin.y * d + r.dir.y * n == b.mins.y * d
    ||| r.origin.y * d + r.dir.y * n == b.maxs.y * d
}

/// The point of `r` at parameter `n / d` (for `d > 0`) lies on the
/// boundary of the box `b`: inside it, with at least one coordinate on a
/// face.
pub open spec fn ray_on_boundary_at(r: Ray, b: Aabb, n: int, d: int) -> bool {
    &&& ray_in_box_at(r, b, n, d)
    &&& on_face_line(r, b, n, d)
}

/// The positive denominator of one axis' normalized parameter bounds.
pub open spec fn axis_den(dd: int) -> int {
    if dd > 0 {
        dd
    } else {
        -dd
    }
}

/// The numerator of the least parameter keeping the coordinate `o + t *
/// dd` inside `[lo_face, hi_face]`, over the denominator [`axis_den`].
pub open spec fn axis_lo(o: int, dd: int, lo_face: int, hi_face: int) -> int {
    if dd > 0 {
        lo_face - o
    } else {
        o - hi_face
    }
}

/// The numerator of the greatest parameter keeping the coordinate inside
/// the slab, over the denominator [`axis_den`].
pub open spec fn axis_hi(o: int, dd: int, lo_face: int, hi_face: int) -> int {
    if dd > 0 {
        hi_face - o
    } else {
        o - lo_face
    }
}

/// The slab constraint of one axis, at parameter `n2 / d2`, is exactly the
/// normalized bound constraint of that axis.
proof fn lemma_axis_slab(o: int, dd: int, lo_face: int, hi_face: int, n2: int, d2: int)
    requires
        dd != 0,
        d2 > 0,
    ensures
        (lo_face * d2 <= o * d2 + dd * n2 <= hi_face * d2) <==> (axis_lo(o, dd, lo_face, hi_face)
            * d2 <= n2 * axis_den(dd) && n2 * axis_den(dd) <= axis_hi(o, dd, lo_face, hi_face)
            * d2),
{
    if dd > 0 {
        assert((lo_face * d2 <= o * d2 + dd * n2) == ((lo_face - o) * d2 <= n2 * dd))
            by (nonlinear_arith);
        assert((o * d2 + dd * n2 <= hi_face * d2) == (n2 * dd <= (hi_face - o) * d2))
            by (nonlinear_arith);
    } else {
        assert((lo_face * d2 <= o * d2 + dd * n2) == (n2 * (-dd) <= (o - lo_face) * d2))
            by (nonlinear_arith);
        assert((o * d2 + dd * n2 <= hi_face * d2) == ((o - hi_face) * d2 <= n2 * (-dd)))
            by (nonlinear_arith);
    }
}

/// A slab constraint with zero direction does not depend on the
/// parameter: it holds at `n2 / d2` exactly when the starting coordinate
/// lies inside the slab.
proof fn lemma_axis_zero(o: int, lo_face: int, hi_face: int, n2: int, d2: int)
    requires
        d2 > 0,
    ensures
        (lo_face * d2 <= o * d2 + 0 * n2 <= hi_face * d2) <==> (lo_face <= o <= hi_face),
{
    assert((lo_face * d2 <= o * d2) == (lo_face <= o)) by (nonlinear_arith)
        requires
            d2 > 0,
    ;
    assert((o * d2 <= hi_face * d2) == (o <= hi_face)) by (nonlinear_arith)
        requires
            d2 > 0,
    ;
}

/// At its own normalized bounds, an axis' coordinate stands exactly on a
/// face of the slab: on the entry face at the lower bound and on the exit
/// face at the upper one.
proof fn lemma_axis_faces(o: int, dd: int, lo_face: int, hi_face: int)
    requires
        dd != 0,
    ensures
        o * axis_den(dd) + dd * axis_lo(o, dd, lo_face, hi_face) == (if dd > 0 {
            lo_face
        } else {
            hi_face
        }) * axis_den(dd),
        o * axis_den(dd) + dd * axis_hi(o, dd, lo_face, hi_face) == (if dd > 0 {
            hi_face
        } else {
            lo_face
        }) * axis_den(dd),
{
    if dd > 0 {
        assert(o * dd + dd * (lo_face - o) == lo_face * dd) by (nonlinear_arith);
        assert(o * dd + dd * (hi_face - o) == hi_face * dd) by (nonlinear_arith);
    } else {
        assert(o * (-dd) + dd * (o - hi_face) == hi_face * (-dd)) by (nonlinear_arith);
        assert(o * (-dd) + dd * (o - lo_face) == lo_face * (-dd)) by (nonlinear_arith);
    }
}

/// The normalized bounds of one axis' slab, as executable code:
/// `(axis_lo, axis_hi, axis_den)`.
fn axis_bounds(o: i64, dd: i64, lo_face: i64, hi_face: i64) -> (r: (i64, i64, i64))
    requires
        dd != 0,
        -COORD_LIMIT <= o <= COORD_LIMIT,
        -COORD_LIMIT <= dd <= COORD_LIMIT,
        -COORD_LIMIT <= lo_face <= hi_face <= COORD_LIMIT,
    ensures
        r.0 == axis_lo(o as int, dd as int, lo_face as int, hi_face as int),
        r.1 == axis_hi(o as int, dd as int, lo_face as int, hi_face as int),
        r.2 == axis_den(dd as int),
        0 < r.2 <= COORD_LIMIT,
        -2 * COORD_LIMIT <= r.0 <= r.1 <= 2 * COORD_LIMIT,
{
    if dd > 0 {
        (lo_face - o, hi_face - o, dd)
    } else {
        (o - hi_face, o - lo_face, -dd)
    }
}

/// The parameters `t = n2 / d2` whose ray point lies in the box are
/// exactly those between `ln / ld` and `hn / hd`.
spec fn bounds_charn(r: Ray, b: Aabb, ln: int, ld: int, hn: int, hd: int) -> bool {
    forall|n2: int, d2: int| d2 > 0 ==> (#[trigger] ray_in_box_at(r, b, n2, d2) <==> (ln * d2
        <= n2 * ld && n2 * hd <= hn * d2))
}

/// Turns the merged parameter interval of the slabs into the cast's
/// answer.
fn toi_from_bounds(ray: &Ray, b: &Aabb, ln: i64, ld: i64, hn: i64, hd: i64, solid: bool) -> (res:
    Option<(i64, i64)>)
    requires
        0 < ld <= COORD_LIMIT,
        0 < hd <= COORD_LIMIT,
        -2 * COORD_LIMIT <= ln <= 2 * COORD_LIMIT,
        -2 * COORD_LIMIT <= hn <= 2 * COORD_LIMIT,
        bounds_charn(*ray, *b, ln as int, ld as int, hn as int, hd as int),
        on_face_line(*ray, *b, ln as int, ld as int),
        on_face_line(*ray, *b, hn as int, hd as int),
    ensures
        (match res {
            Some(t) => {
                &&& t.1 > 0
                &&& t.0 >= 0
                &&& (if solid {
                    ray_in_box_at(*ray, *b, t.0 as int, t.1 as int)
                } else {
                    ray_on_boundary_at(*ray, *b, t.0 as int, t.1 as int)
                })
                &&& (!ray_in_box_at(*ray, *b, 0, 1) ==> forall|n2: int, d2: int| d2 > 0 && n2
                    >= 0 && n2 * t.1 < t.0 * d2 ==> !ray_in_box_at(*ray, *b, n2, d2))
                &&& (solid ==> forall|n2: int, d2: int| d2 > 0 && n2 >= 0 && n2 * t.1 < t.0 * d2
                    ==> !ray_in_box_at(*ray, *b, n2, d2))
                &&& (!solid && ray_in_box_at(*ray, *b, 0, 1) ==> t.0 == 0 || (forall|n2: int,
                    d2: int| d2 > 0 && ray_in_box_at(*ray, *b, n2, d2) ==> n2 * t.1 <= t.0 * d2))
            },
            None => forall|n2: int, d2: int| d2 > 0 && n2 >= 0 ==> !ray_in_box_at(*ray, *b, n2,
                d2),
        }),
{
    proof {
        lemma_mul_bound(ln as int, hd as int, 2 * COORD_LIMIT as int);
        lemma_mul_bound(hn as int, ld as int, 2 * COORD_LIMIT as int);
        assert((2 * COORD_LIMIT as int) * (2 * COORD_LIMIT as int) < 0x4000_0000_0000_0000)
            by (nonlinear_arith);
    }
    if ln * hd > hn * ld {
        // The slabs' parameter intervals do not meet: the ray line misses
        // the box entirely.
        proof {
            assert forall|n2: int, d2: int| d2 > 0 && n2 >= 0 implies !ray_in_box_at(*ray, *b, n2,
                d2) by {
                if ray_in_box_at(*ray, *b, n2, d2) {
                    lemma_rat_le_trans(ln as int, ld as int, n2, d2, hn as int, hd as int);
                }
            }
        }
        return None;
    }
    if hn < 0 {
        // The whole intersection lies at negative parameters: the box is
        // behind the ray.
        proof {
            assert forall|n2: int, d2: int| d2 > 0 && n2 >= 0 implies !ray_in_box_at(*ray, *b, n2,
                d2) by {
                if ray_in_box_at(*ray, *b, n2, d2) {
                    assert(hn * d2 < 0) by (nonlinear_arith)
                        requires
                            hn < 0,
                            d2 > 0,
                    ;
                    assert(n2 * hd >= 0) by (nonlinear_arith)
                        requires
                            n2 >= 0,
                            hd > 0,
                    ;
                }
            }
        }
        return None;
    }
    if solid {
        if ln <= 0 {
            // The ray starts inside the box: it hits at once.
            proof {
                assert(ray_in_box_at(*ray, *b, 0, 1));
            }
            Some((0, 1))
        } else {
            proof {
                assert(ray_in_box_at(*ray, *b, ln as int, ld as int));
            }
            Some((ln, ld))
        }
    } else {
        if ln >= 0 {
            // The ray starts outside: the entry bound is on the boundary.
            proof {
                assert(ray_in_box_at(*ray, *b, ln as int, ld as int));
            }
            Some((ln, ld))
        } else {
            // The ray starts inside the hollow box: the first crossing is
            // the exit bound.
            proof {
                assert(ray_in_box_at(*ray, *b, hn as int, hd as int));
            }
            Some((hn, hd))
        }
    }
}

/// Casts a ray against a box and returns the exact rational time of
/// impact as a numerator and positive denominator, or nothing when the ray
/// never reaches the box at a non-negative parameter.
///
/// A solid cast reports the least non-negative parameter whose ray point
/// lies in the closed box — zero when the ray starts inside. A non-solid
/// cast treats the box as a hollow shell: it reports a parameter on the
/// boundary — the entry bound when the ray starts outside, the exit bound
/// when it starts inside.
pub fn toi_with_aabb(b: &Aabb, ray: &Ray, solid: bool) -> (res: Option<(i64, i64)>)
    requires
        b.wf(),
        -COORD_LIMIT <= ray.origin.x <= COORD_LIMIT,
        -COORD_LIMIT <= ray.origin.y <= COORD_LIMIT,
        -COORD_LIMIT <= ray.dir.x <= COORD_LIMIT,
        -COORD_LIMIT <= ray.dir.y <= COORD_LIMIT,
        !(ray.dir.x == 0 && ray.dir.y == 0),
    ensures
        (match res {
            Some(t) => {
                &&& t.1 > 0
                &&& t.0 >= 0
                &&& (if solid {
                    ray_in_box_at(*ray, *b, t.0 as int, t.1 as int)
                } else {
                    ray_on_boundary_at(*ray, *b, t.0 as int, t.1 as int)
                })
                &&& (!ray_in_box_at(*ray, *b, 0, 1) ==> forall|n2: int, d2: int| d2 > 0 && n2
                    >= 0 && n2 * t.1 < t.0 * d2 ==> !ray_in_box_at(*ray, *b, n2, d2))
                &&& (solid ==> forall|n2: int, d2: int| d2 > 0 && n2 >= 0 && n2 * t.1 < t.0 * d2
                    ==> !ray_in_box_at(*ray, *b, n2, d2))
                &&& (!solid && ray_in_box_at(*ray, *b, 0, 1) ==> t.0 == 0 || (forall|n2: int,
                    d2: int| d2 > 0 && ray_in_box_at(*ray, *b, n2, d2) ==> n2 * t.1 <= t.0 * d2))
            },
            None => forall|n2: int, d2: int| d2 > 0 && n2 >= 0 ==> !ray_in_box_at(*ray, *b, n2,
                d2),
        }),
{
    let o_x: i64 = ray.origin.x;
    let o_y: i64 = ray.origin.y;
    let d_x: i64 = ray.dir.x;
    let d_y: i64 = ray.dir.y;

    if d_x == 0 {
        if o_x < b.mins.x || o_x > b.maxs.x {
            proof {
                assert forall|n2: int, d2: int| d2 > 0 && n2 >= 0 implies !ray_in_box_at(*ray, *b,
                    n2, d2) by {
                    lemma_axis_zero(o_x as int, b.mins.x as int, b.maxs.x as int, n2, d2);
                }
            }
            return None;
        }
        let a = axis_bounds(o_y, d_y, b.mins.y, b.maxs.y);
        proof {
            assert forall|n2: int, d2: int| d2 > 0 implies (#[trigger] ray_in_box_at(*ray, *b, n2,
                d2) <==> (a.0 * d2 <= n2 * a.2 && n2 * a.2 <= a.1 * d2)) by {
                lemma_axis_zero(o_x as int, b.mins.x as int, b.maxs.x as int, n2, d2);
                lemma_axis_slab(o_y as int, d_y as int, b.mins.y as int, b.maxs.y as int, n2, d2);
            }
            lemma_axis_faces(o_y as int, d_y as int, b.mins.y as int, b.maxs.y as int);
        }
        toi_from_bounds(ray, b, a.0, a.2, a.1, a.2, solid)
    } else if d_y == 0 {
        if o_y < b.mins.y || o_y > b.maxs.y {
            proof {
                assert forall|n2: int, d2: int| d2 > 0 && n2 >= 0 implies !ray_in_box_at(*ray, *b,
                    n2, d2) by {
                    lemma_axis_zero(o_y as int, b.mins.y as int, b.maxs.y as int, n2, d2);
                }
            }
            return None;
        }
        let a = axis_bounds(o_x, d_x, b.mins.x, b.maxs.x);
        proof {
            assert forall|n2: int, d2: int| d2 > 0 implies (#[trigger] ray_in_box_at(*ray, *b, n2,
                d2) <==> (a.0 * d2 <= n2 * a.2 && n2 * a.2 <= a.1 * d2)) by {
                lemma_axis_zero(o_y as int, b.mins.y as int, b.maxs.y as int, n2, d2);
                lemma_axis_slab(o_x as int, d_x as int, b.mins.x as int, b.maxs.x as int, n2, d2);
            }
            lemma_axis_faces(o_x as int, d_x as int, b.mins.x as int, b.maxs.x as int);
        }
        toi_from_bounds(ray, b, a.0, a.2, a.1, a.2, solid)
    } else {
        let ax = axis_bounds(o_x, d_x, b.mins.x, b.maxs.x);
        let ay = axis_bounds(o_y, d_y, b.mins.y, b.maxs.y);
        proof {
            lemma_mul_bound(ay.0 as int, ax.2 as int, 2 * COORD_LIMIT as int);
            lemma_mul_bound(ax.0 as int, ay.2 as int, 2 * COORD_LIMIT as int);
            lemma_mul_bound(ay.1 as int, ax.2 as int, 2 * COORD_LIMIT as int);
            lemma_mul_bound(ax.1 as int, ay.2 as int, 2 * COORD_LIMIT as int);
            assert((2 * COORD_LIMIT as int) * (2 * COORD_LIMIT as int) < 0x4000_0000_0000_0000)
                by (nonlinear_arith);
            lemma_axis_faces(o_x as int, d_x as int, b.mins.x as int, b.maxs.x as int);
            lemma_axis_faces(o_y as int, d_y as int, b.mins.y as int, b.maxs.y as int);
        }
        let (ln, ld): (i64, i64) = if ay.0 * ax.2 > ax.0 * ay.2 {
            (ay.0, ay.2)
        } else {
            (ax.0, ax.2)
        };
        let (hn, hd): (i64, i64) = if ay.1 * ax.2 < ax.1 * ay.2 {
            (ay.1, ay.2)
        } else {
            (ax.1, ax.2)
        };
        proof {
            assert forall|n2: int, d2: int| d2 > 0 implies (#[trigger] ray_in_box_at(*ray, *b, n2,
                d2) <==> (ln * d2 <= n2 * ld && n2 * hd <= hn * d2)) by {
                lemma_axis_slab(o_x as int, d_x as int, b.mins.x as int, b.maxs.x as int, n2, d2);
                lemma_axis_slab(o_y as int, d_y as int, b.mins.y as int, b.maxs.y as int, n2, d2);
                if ln * d2 <= n2 * ld && n2 * hd <= hn * d2 {
                    lemma_rat_le_trans(ax.0 as int, ax.2 as int, ln as int, ld as int, n2, d2);
                    lemma_rat_le_trans(ay.0 as int, ay.2 as int, ln as int, ld as int, n2, d2);
                    lemma_rat_le_trans(n2, d2, hn as int, hd as int, ax.1 as int, ax.2 as int);
                    lemma_rat_le_trans(n2, d2, hn as int, hd as int, ay.1 as int, ay.2 as int);
                }
            }
        }
        toi_from_bounds(ray, b, ln, ld, hn, hd, solid)
    }
}

/// With positive denominators, `a/b <= c/d` and `c/d <= e/f` give
/// `a/b <= e/f`, stated by cross multiplication.
proof fn lemma_rat_le_trans(a: int, b: int, c: int, d: int, e: int, f: int)
    requires
        b > 0,
        d > 0,
        f > 0,
        a * d <= c * b,
        c * f <= e * d,
    ensures
        a * f <= e * b,
{
    assert(a * f <= e * b) by (nonlinear_arith)
        requires
            b > 0,
            d > 0,
            f > 0,
            a * d <= c * b,
            c * f <= e * d,
    ;
}

} // verus!
