use narrowphase::placement::Placement;
use narrowphase::proximity::{
    any_against_composite_shape, box_box_proximity, composite_shape_against_any,
    composite_shape_against_any_with_visited, compute_bv_cost, Aabb, Bvt, CompositeShape,
    Proximity,
};
use narrowphase::vec2::{Vec2, COORD_LIMIT};

fn v(x: i64, y: i64) -> Vec2 {
    Vec2::new(x, y)
}

fn aabb(min_x: i64, min_y: i64, max_x: i64, max_y: i64) -> Aabb {
    Aabb::new(v(min_x, min_y), v(max_x, max_y))
}

fn leaf(bv: Aabb, index: usize) -> Bvt {
    Bvt::Leaf { bv, index }
}

fn node(bv: Aabb, left: Bvt, right: Bvt) -> Bvt {
    Bvt::Node { bv, left: Box::new(left), right: Box::new(right) }
}

#[test]
fn box_box_proximity_classifies_the_three_states() {
    let ident = Placement::identity();
    let a = aabb(0, 0, 2, 2);

    // Overlap, and mere touching, both intersect.
    assert_eq!(box_box_proximity(&ident, &a, &ident, &aabb(1, 1, 3, 3), 0), Proximity::Intersecting);
    assert_eq!(box_box_proximity(&ident, &a, &ident, &aabb(2, 0, 4, 2), 0), Proximity::Intersecting);

    // Separated by 1 along x: within a margin of 1, disjoint under margin 0.
    let b = aabb(3, 0, 4, 2);
    assert_eq!(box_box_proximity(&ident, &a, &ident, &b, 1), Proximity::WithinMargin);
    assert_eq!(box_box_proximity(&ident, &a, &ident, &b, 0), Proximity::Disjoint);

    // Diagonal separation: squared distance 2 exceeds margin 1, fits margin 2.
    let c = aabb(3, 3, 4, 4);
    assert_eq!(box_box_proximity(&ident, &a, &ident, &c, 1), Proximity::Disjoint);
    assert_eq!(box_box_proximity(&ident, &a, &ident, &c, 2), Proximity::WithinMargin);

    // Placements shift the boxes before the test.
    let shifted = Placement::new(v(-3, 0));
    assert_eq!(box_box_proximity(&ident, &a, &shifted, &b, 0), Proximity::Intersecting);
}

#[test]
fn box_box_proximity_is_symmetric() {
    let m1 = Placement::new(v(5, -2));
    let m2 = Placement::new(v(-1, 3));
    let a = aabb(0, 0, 2, 2);
    let cases = [aabb(1, 1, 3, 3), aabb(9, -2, 12, 0), aabb(7, 3, 8, 4), aabb(-4, -9, -3, -8)];
    for margin in [0i64, 1, 2, 5] {
        for b in cases.iter() {
            assert_eq!(
                box_box_proximity(&m1, &a, &m2, b, margin),
                box_box_proximity(&m2, b, &m1, &a, margin)
            );
        }
    }
}

#[test]
fn compute_bv_cost_prunes_exactly_beyond_the_margin() {
    // Other box separated from bv by 3 along x: squared distance 9.
    let bv = aabb(0, 0, 2, 2);
    let other = aabb(5, 0, 6, 2);
    assert_eq!(compute_bv_cost(&bv, &other, 3), Some(9));
    assert_eq!(compute_bv_cost(&bv, &other, 2), None);
    // Overlapping volumes cost zero.
    assert_eq!(compute_bv_cost(&bv, &aabb(1, 1, 3, 3), 0), Some(0));
}

#[test]
fn dispatcher_matches_exhaustive_scan() {
    let parts = vec![aabb(0, 0, 2, 2), aabb(10, 0, 12, 2)];
    let bvt = node(
        aabb(0, 0, 12, 2),
        leaf(aabb(0, 0, 2, 2), 0),
        leaf(aabb(10, 0, 12, 2), 1),
    );
    let composite = CompositeShape::new(parts.clone(), bvt);
    let m1 = Placement::identity();
    let m2 = Placement::new(v(0, 0));

    for probe in [aabb(3, 0, 4, 2), aabb(1, 1, 3, 3), aabb(5, 0, 6, 2), aabb(200, 200, 201, 201)] {
        for margin in [0i64, 1, 2] {
            let direct0 = box_box_proximity(&m1, &parts[0], &m2, &probe, margin);
            let direct1 = box_box_proximity(&m1, &parts[1], &m2, &probe, margin);
            let expected = match (direct0, direct1) {
                (Proximity::Intersecting, _) | (_, Proximity::Intersecting) => {
                    Proximity::Intersecting
                }
                (Proximity::WithinMargin, _) | (_, Proximity::WithinMargin) => {
                    Proximity::WithinMargin
                }
                _ => Proximity::Disjoint,
            };
            assert_eq!(
                composite_shape_against_any(&m1, &composite, &m2, &probe, margin),
                expected
            );
        }
    }
}

#[test]
fn dispatcher_is_symmetric_in_its_operands() {
    let parts = vec![aabb(0, 0, 2, 2), aabb(10, 0, 12, 2)];
    let bvt = node(
        aabb(0, 0, 12, 2),
        leaf(aabb(0, 0, 2, 2), 0),
        leaf(aabb(10, 0, 12, 2), 1),
    );
    let composite = CompositeShape::new(parts, bvt);
    let m1 = Placement::new(v(3, 1));
    let m2 = Placement::new(v(-2, 0));

    for probe in [aabb(3, 0, 4, 2), aabb(6, 1, 8, 3), aabb(50, 50, 51, 51)] {
        for margin in [0i64, 1, 4] {
            assert_eq!(
                composite_shape_against_any(&m1, &composite, &m2, &probe, margin),
                any_against_composite_shape(&m2, &probe, &m1, &composite, margin)
            );
        }
    }
}

#[test]
fn intersecting_leaf_short_circuits_the_search() {
    // The probe overlaps part 0 and is merely near part 1: the answer must
    // be the intersection, whatever the other leaves report.
    let parts = vec![aabb(0, 0, 2, 2), aabb(3, 0, 5, 2), aabb(20, 0, 22, 2)];
    let bvt = node(
        aabb(0, 0, 22, 2),
        node(aabb(0, 0, 5, 2), leaf(aabb(0, 0, 2, 2), 0), leaf(aabb(3, 0, 5, 2), 1)),
        leaf(aabb(20, 0, 22, 2), 2),
    );
    let composite = CompositeShape::new(parts, bvt);
    let ident = Placement::identity();
    let probe = aabb(1, 0, 3, 2);

    assert_eq!(
        composite_shape_against_any(&ident, &composite, &ident, &probe, 1),
        Proximity::Intersecting
    );
}

#[test]
fn far_subtree_is_pruned_and_never_tested_exactly() {
    // Two parts far apart; the probe sits near part 0 only. The search must
    // classify exactly as a direct test against the near part does, and the
    // exact pairwise test must never run on the far part.
    let near = aabb(0, 0, 2, 2);
    let far = aabb(1000, 1000, 1002, 1002);
    let parts = vec![near, far];
    let bvt = node(aabb(0, 0, 1002, 1002), leaf(near, 0), leaf(far, 1));
    let composite = CompositeShape::new(parts, bvt);
    let ident = Placement::identity();

    for (probe, margin) in [
        (aabb(3, 0, 4, 2), 1i64),
        (aabb(3, 0, 4, 2), 0),
        (aabb(1, 1, 3, 3), 0),
    ] {
        let (result, visited) =
            composite_shape_against_any_with_visited(&ident, &composite, &ident, &probe, margin);
        let direct = box_box_proximity(&ident, &near, &ident, &probe, margin);
        assert_eq!(result, direct);
        assert!(!visited.contains(&1));
    }
}

#[test]
fn everything_pruned_means_disjoint() {
    let parts = vec![aabb(0, 0, 1, 1)];
    let composite = CompositeShape::new(parts, leaf(aabb(0, 0, 1, 1), 0));
    let ident = Placement::identity();
    let probe = aabb(100, 100, 101, 101);

    let (result, visited) =
        composite_shape_against_any_with_visited(&ident, &composite, &ident, &probe, 5);
    assert_eq!(result, Proximity::Disjoint);
    assert!(visited.is_empty());
}

#[test]
fn within_margin_leaf_is_retained_as_the_answer() {
    let parts = vec![aabb(0, 0, 2, 2), aabb(30, 0, 32, 2)];
    let bvt = node(aabb(0, 0, 32, 2), leaf(aabb(0, 0, 2, 2), 0), leaf(aabb(30, 0, 32, 2), 1));
    let composite = CompositeShape::new(parts, bvt);
    let ident = Placement::identity();

    // Probe 2 away from part 0 along x: within a margin of 2, not touching.
    let probe = aabb(4, 0, 5, 2);
    assert_eq!(
        composite_shape_against_any(&ident, &composite, &ident, &probe, 2),
        Proximity::WithinMargin
    );
    assert_eq!(
        composite_shape_against_any(&ident, &composite, &ident, &probe, 1),
        Proximity::Disjoint
    );
}

#[test]
fn extreme_coordinates_stay_exact() {
    let l = COORD_LIMIT;
    let a = aabb(-l, -l, l, l);
    let m1 = Placement::new(v(-l, -l));
    let m2 = Placement::new(v(l, l));

    // Placed, the boxes occupy [-2l, 0]^2 and [0, 2l]^2: they touch.
    assert_eq!(
        box_box_proximity(&m1, &a, &m2, &a, l),
        Proximity::Intersecting
    );

    // A probe one unit away along both axes: squared distance 2.
    let c = aabb(1 - l, 1 - l, l, l);
    assert_eq!(box_box_proximity(&m1, &a, &m2, &c, l), Proximity::WithinMargin);
    assert_eq!(box_box_proximity(&m1, &a, &m2, &c, 1), Proximity::Disjoint);

    let composite = CompositeShape::new(vec![a], leaf(a, 0));
    assert_eq!(
        composite_shape_against_any(&m1, &composite, &m2, &c, l),
        Proximity::WithinMargin
    );
}
