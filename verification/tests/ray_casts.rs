use narrowphase::proximity::Aabb;
use narrowphase::ray::{toi_with_aabb, Ray};
use narrowphase::vec2::{Vec2, COORD_LIMIT};

fn v(x: i64, y: i64) -> Vec2 {
    Vec2::new(x, y)
}

fn aabb(min_x: i64, min_y: i64, max_x: i64, max_y: i64) -> Aabb {
    Aabb::new(v(min_x, min_y), v(max_x, max_y))
}

/// The returned rational time of impact equals `expected`.
fn assert_toi(res: Option<(i64, i64)>, expected: i64) {
    let (n, d) = res.expect("expected a hit");
    assert!(d > 0);
    assert_eq!(n, expected * d);
}

#[test]
fn ray_from_inside_the_box_upwards() {
    // A box of half-extents (1, 2) at the origin; a ray starting at the
    // origin heading along +Y.
    let b = aabb(-1, -2, 1, 2);
    let ray = Ray::new(v(0, 0), v(0, 1));

    // Solid cast: the interior counts, so the ray hits at once.
    assert_toi(toi_with_aabb(&b, &ray, true), 0);
    // Non-solid cast: the first boundary crossing is the exit through the
    // +Y face, two units away.
    assert_toi(toi_with_aabb(&b, &ray, false), 2);
}

#[test]
fn ray_heading_away_from_the_box_misses() {
    // The same box; a ray starting at (2, 2) heading along (1, 1), away
    // from the box.
    let b = aabb(-1, -2, 1, 2);
    let ray = Ray::new(v(2, 2), v(1, 1));

    assert!(toi_with_aabb(&b, &ray, true).is_none());
    assert!(toi_with_aabb(&b, &ray, false).is_none());
}

#[test]
fn ray_entering_from_outside() {
    let b = aabb(2, 0, 4, 2);
    let ray = Ray::new(v(0, 0), v(2, 1));

    // Entry through the x = 2 face at parameter 1, for both cast kinds.
    assert_toi(toi_with_aabb(&b, &ray, true), 1);
    assert_toi(toi_with_aabb(&b, &ray, false), 1);
}

#[test]
fn box_behind_the_ray_misses() {
    let b = aabb(-1, -1, 1, 1);
    let ray = Ray::new(v(10, 0), v(1, 0));

    assert!(toi_with_aabb(&b, &ray, true).is_none());
    assert!(toi_with_aabb(&b, &ray, false).is_none());
}

#[test]
fn ray_parallel_to_a_face_outside_the_slab_misses() {
    let b = aabb(-1, -1, 1, 1);
    let ray = Ray::new(v(5, 0), v(0, 1));

    assert!(toi_with_aabb(&b, &ray, true).is_none());
    assert!(toi_with_aabb(&b, &ray, false).is_none());
}

#[test]
fn ray_starting_on_the_boundary_hits_at_zero() {
    let b = aabb(-1, -1, 1, 1);
    let ray = Ray::new(v(1, 0), v(1, 0));

    assert_toi(toi_with_aabb(&b, &ray, true), 0);
    assert_toi(toi_with_aabb(&b, &ray, false), 0);
}

#[test]
fn ray_cast_at_extreme_coordinates() {
    let l = COORD_LIMIT;
    let b = aabb(l - 1, -1, l, 1);
    let ray = Ray::new(v(-l, 0), v(l, 0));

    // Entry through the near face at parameter (2l - 1) / l.
    let (n, d) = toi_with_aabb(&b, &ray, true).expect("expected a hit");
    assert!(d > 0);
    assert_eq!(n * l, (2 * l - 1) * d);
}
