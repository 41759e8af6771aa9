use narrowphase::implicit::{Cuboid, HasMargin, Implicit, Reflection};
use narrowphase::minkowski_sum::{
    cso_support_point, cso_support_point_without_margin, AnnotatedMinkowskiSum, AnnotatedPoint,
    MinkowskiSum,
};
use narrowphase::placement::{Identity, Placement};
use narrowphase::vec2::Vec2;

fn v(x: i64, y: i64) -> Vec2 {
    Vec2::new(x, y)
}

#[test]
fn sum_support_is_sum_of_operand_supports() {
    let c1 = Cuboid::new(v(1, 2), 0);
    let c2 = Cuboid::new(v(3, 1), 0);
    let m1 = Placement::new(v(10, 0));
    let m2 = Placement::new(v(-5, 4));
    let sum = MinkowskiSum::new(&m1, &c1, &m2, &c2);

    let dirs = [v(1, 1), v(-1, 1), v(1, -1), v(-3, -7), v(0, 0), v(5, 0)];
    for d in dirs.iter() {
        let s1 = c1.support_point(&m1, d);
        let s2 = c2.support_point(&m2, d);
        let s = sum.support_point(&Identity::new(), d);
        assert_eq!(s, s1.add(&s2));
    }

    let s = sum.support_point(&Identity::new(), &v(1, 1));
    assert_eq!(s, v(9, 7));
    let s = sum.support_point(&Identity::new(), &v(-1, -1));
    assert_eq!(s, v(1, 1));
}

#[test]
fn sum_support_without_margin_ignores_margins() {
    let c1 = Cuboid::new(v(1, 2), 5);
    let c2 = Cuboid::new(v(3, 1), 7);
    let m1 = Placement::identity();
    let m2 = Placement::identity();
    let sum = MinkowskiSum::new(&m1, &c1, &m2, &c2);

    let with = sum.support_point(&Identity::new(), &v(1, 1));
    let without = sum.support_point_without_margin(&Identity::new(), &v(1, 1));
    assert_eq!(with, v(1 + 5 + 3 + 7, 2 + 5 + 1 + 7));
    assert_eq!(without, v(4, 3));
}

#[test]
fn margin_of_sum_is_sum_of_margins() {
    let c1 = Cuboid::new(v(1, 2), 3);
    let c2 = Cuboid::new(v(3, 1), 5);
    let m = Placement::identity();
    let sum = MinkowskiSum::new(&m, &c1, &m, &c2);
    assert_eq!(sum.margin(), c1.margin() + c2.margin());
    assert_eq!(sum.margin(), 8);

    let asum = AnnotatedMinkowskiSum::new(&m, &c1, &m, &c2);
    assert_eq!(asum.margin(), 8);
}

#[test]
fn annotated_sum_tracks_both_origins() {
    let c1 = Cuboid::new(v(2, 3), 0);
    let c2 = Cuboid::new(v(1, 1), 0);
    let m1 = Placement::new(v(100, -50));
    let m2 = Placement::new(v(-20, 7));
    let asum = AnnotatedMinkowskiSum::new(&m1, &c1, &m2, &c2);

    let dirs = [v(1, 1), v(-2, 5), v(0, -1), v(-4, -4)];
    for d in dirs.iter() {
        let r = asum.support_point(&Identity::new(), &AnnotatedPoint::new_invalid(*d));
        assert_eq!(r.orig1(), c1.support_point(&m1, d));
        assert_eq!(r.orig2(), c2.support_point(&m2, d));
        assert_eq!(r.point(), r.orig1().add(&r.orig2()));

        let r = asum.support_point_without_margin(&Identity::new(), &AnnotatedPoint::new_invalid(*d));
        assert_eq!(r.orig1(), c1.support_point_without_margin(&m1, d));
        assert_eq!(r.orig2(), c2.support_point_without_margin(&m2, d));
        assert_eq!(r.point(), r.orig1().add(&r.orig2()));
    }
}

#[test]
fn cso_support_point_reflects_second_shape() {
    let c1 = Cuboid::new(v(1, 2), 0);
    let c2 = Cuboid::new(v(3, 1), 0);
    let m1 = Placement::new(v(10, 0));
    let m2 = Placement::new(v(-5, 4));

    let d = v(1, 1);
    let r = cso_support_point(&m1, &c1, &m2, &c2, d);
    assert_eq!(r.orig1(), c1.support_point(&m1, &d));
    assert_eq!(r.orig2(), c2.support_point(&m2, &d.neg()).neg());
    assert_eq!(r.point(), r.orig1().add(&r.orig2()));
    // support1((10,0) + grown (1,2)) = (11, 2); -support2(-d) = -((-5,4) + (-3,-1)) = (8, -3)
    assert_eq!(r.orig1(), v(11, 2));
    assert_eq!(r.orig2(), v(8, -3));
    assert_eq!(r.point(), v(19, -1));
}

#[test]
fn cso_support_point_without_margin_reflects_second_shape() {
    let c1 = Cuboid::new(v(1, 2), 4);
    let c2 = Cuboid::new(v(3, 1), 2);
    let m1 = Placement::identity();
    let m2 = Placement::identity();

    let d = v(-1, 1);
    let r = cso_support_point_without_margin(&m1, &c1, &m2, &c2, d);
    assert_eq!(r.orig1(), c1.support_point_without_margin(&m1, &d));
    assert_eq!(r.orig2(), c2.support_point_without_margin(&m2, &d.neg()).neg());
    assert_eq!(r.point(), r.orig1().add(&r.orig2()));
    assert_eq!(r.orig1(), v(-1, 2));
    assert_eq!(r.orig2(), v(-3, 1));
}

#[test]
fn reflection_support_negates_through_opposite_direction() {
    let c = Cuboid::new(v(2, 5), 0);
    let m = Placement::new(v(7, -3));
    let refl = Reflection::new(&c);

    let dirs = [v(1, 0), v(0, 1), v(-1, -1), v(3, -2)];
    for d in dirs.iter() {
        let s = refl.support_point(&m, d);
        assert_eq!(s, c.support_point(&m, &d.neg()).neg());
    }
    assert_eq!(refl.margin(), c.margin());
}

#[test]
fn reflecting_twice_restores_the_shape() {
    let c = Cuboid::new(v(2, 5), 3);
    let m = Placement::new(v(7, -3));
    let refl = Reflection::new(&c);
    let double = Reflection::new(&refl);

    let dirs = [v(1, 0), v(0, 1), v(-1, -1), v(3, -2), v(0, 0)];
    for d in dirs.iter() {
        assert_eq!(double.support_point(&m, d), c.support_point(&m, d));
        assert_eq!(
            double.support_point_without_margin(&m, d),
            c.support_point_without_margin(&m, d)
        );
    }
    assert_eq!(double.margin(), c.margin());
}

#[test]
fn annotated_point_arithmetic_acts_on_all_fields() {
    let a = AnnotatedPoint::new(v(1, 2), v(3, 4), v(4, 6));
    let b = AnnotatedPoint::new(v(10, 20), v(30, 40), v(40, 60));

    let s = a.add(&b);
    assert_eq!(s.orig1(), v(11, 22));
    assert_eq!(s.orig2(), v(33, 44));
    assert_eq!(s.point(), v(44, 66));

    let d = b.sub(&a);
    assert_eq!(d.orig1(), v(9, 18));
    assert_eq!(d.orig2(), v(27, 36));
    assert_eq!(d.point(), v(36, 54));

    let n = a.neg();
    assert_eq!(n.orig1(), v(-1, -2));
    assert_eq!(n.orig2(), v(-3, -4));
    assert_eq!(n.point(), v(-4, -6));

    let m = a.mul(3);
    assert_eq!(m.orig1(), v(3, 6));
    assert_eq!(m.orig2(), v(9, 12));
    assert_eq!(m.point(), v(12, 18));

    let q = b.div(20);
    assert_eq!(q.orig1(), v(0, 1));
    assert_eq!(q.orig2(), v(1, 2));
    assert_eq!(q.point(), v(2, 3));
}

#[test]
fn annotated_point_queries_read_only_the_sum_point() {
    let a = AnnotatedPoint::new(v(1, 2), v(3, 4), v(3, 4));
    let b = AnnotatedPoint::new(v(-7, -7), v(10, 11), v(3, 4));
    // Equality ignores the origins.
    assert!(a == b);
    let c = AnnotatedPoint::new(v(1, 2), v(3, 4), v(5, 4));
    assert!(a != c);

    // Zero tests and norms ignore the origins too.
    let z = AnnotatedPoint::new(v(9, 9), v(-9, -9), v(0, 0));
    assert!(z.is_zero());
    assert!(!a.is_zero());
    assert_eq!(AnnotatedPoint::zero().point(), v(0, 0));

    assert_eq!(a.sqnorm(), 25);
    assert_eq!(a.norm(), 5);
    assert_eq!(a.dot(&b), 25);
    assert_eq!(c.sub_dot(&a, &b), 6);

    let inv = AnnotatedPoint::new_invalid(v(5, -2));
    assert_eq!(inv.orig1(), v(0, 0));
    assert_eq!(inv.orig2(), v(0, 0));
    assert_eq!(inv.point(), v(5, -2));

    assert_eq!(AnnotatedPoint::dim(), 2);
}

#[test]
fn vector_norm_rounds_down() {
    assert_eq!(v(3, 4).norm(), 5);
    assert_eq!(v(1, 1).norm(), 1);
    assert_eq!(v(0, 0).norm(), 0);
    assert_eq!(v(-3, 4).norm(), 5);
    assert_eq!(v(2, 0).sqnorm(), 4);
    assert_eq!(Vec2::dim(), 2);
}
