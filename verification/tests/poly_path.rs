//! Path engine tests: stepping, transforms, containment.

use spacedogs::constants::UNIT;
use spacedogs::geom::{dist, isqrt, Vec2i};
use spacedogs::poly_path::{calculate_total_length, is_between, PolyPath};

/// A point given in linear units, converted to sub-unit coordinates.
fn v(x: f64, y: f64) -> Vec2i {
    Vec2i::new((x * UNIT as f64).round() as i64, (y * UNIT as f64).round() as i64)
}

fn units(c: i64) -> f64 {
    c as f64 / UNIT as f64
}

#[test]
fn test_between() {
    assert_eq!(is_between(v(0.3, 0.), v(1.0, 0.), v(0.5, 0.)), true,);
}

#[test]
fn triangle_path_okay() {
    let vertices = vec![v(0.0, 0.0), v(1.0, 0.0), v(0.5, 1.)];
    let mut tria = PolyPath::new(vertices);
    tria.step(2 * UNIT);
    assert!(
        (units(tria.pos.x) - 0.5527864).abs() < 1e-5,
        "Testing correct x coordinate with dx overshoot"
    );
    assert!(
        (units(tria.pos.y) - 0.8944272).abs() < 1e-5,
        "Testing correct y coordinate with dx overshoot"
    );

    // A further advance of 2.2 units wraps past the start: the cursor lands
    // at arc length (2.0 + 2.2) - perimeter, which is 0.963934 of the way
    // along the first edge.
    let p = tria.step(2_200_000);
    assert_eq!(p.x, 963_934, "check if current direction is correct");
    assert_eq!(p.y, 0, "check if current direction is correct");
}

#[test]
fn single_vertex_path_is_stationary() {
    let mut path = PolyPath::new(vec![v(3.0, 4.0)]);
    assert_eq!(path.total_length, 0);
    for dx in [0i64, 1, UNIT, 1000 * UNIT] {
        let p = path.step(dx);
        assert_eq!(p, v(3.0, 4.0));
    }
    assert_eq!(path.pos, v(3.0, 4.0));
    assert_eq!(path.distance, 0);
}

#[test]
fn empty_path_degenerates_to_origin() {
    let mut path = PolyPath::new(Vec::new());
    assert_eq!(path.total_length, 0);
    let p = path.step(7 * UNIT);
    assert_eq!(p, Vec2i::new(0, 0));
}

#[test]
fn triangle_perimeter_exact() {
    let vertices = vec![v(0.0, 0.0), v(1.0, 0.0), v(0.5, 1.0)];
    // 1_000_000 + 2 * floor(sqrt(1.25e12)) = 1_000_000 + 2 * 1_118_033.
    assert_eq!(calculate_total_length(&vertices), 3_236_066);
}

#[test]
fn step_zero_is_a_resync() {
    let mut path = PolyPath::new(vec![v(0.0, 0.0), v(1.0, 0.0), v(0.5, 1.0)]);
    path.step(2 * UNIT);
    let before = (path.pos, path.distance);
    let p = path.step(0);
    assert_eq!((p, path.distance), before);
}

#[test]
fn translate_round_trip_restores_path() {
    let mut path = PolyPath::new(vec![v(0.0, 0.0), v(1.0, 0.0), v(0.5, 1.0)]);
    path.step(2 * UNIT);
    let vertices0 = path.vertices.clone();
    let state0 = (path.pos, path.total_length, path.distance);
    let offset = v(12.5, -3.25);
    path.translate(offset);
    path.translate(Vec2i::new(-offset.x, -offset.y));
    assert_eq!(path.vertices, vertices0);
    assert_eq!((path.pos, path.total_length, path.distance), state0);
}

#[test]
fn translate_shifts_vertices() {
    let mut path = PolyPath::new(vec![v(0.0, 0.0), v(1.0, 0.0)]);
    path.translate(v(2.0, 3.0));
    assert_eq!(path.vertices[0], v(2.0, 3.0));
    assert_eq!(path.vertices[1], v(3.0, 3.0));
    assert_eq!(path.total_length, 2 * UNIT);
}

#[test]
fn scale_about_origin() {
    let mut path = PolyPath::new(vec![v(1.0, -2.0), v(0.5, 4.0)]);
    path.scale(2 * UNIT);
    assert_eq!(path.vertices[0], v(2.0, -4.0));
    assert_eq!(path.vertices[1], v(1.0, 8.0));
}

#[test]
fn rotate_quarter_turn() {
    let mut path = PolyPath::new(vec![v(1.0, 0.0), v(0.0, 2.0)]);
    // cos 90 degrees = 0, sin 90 degrees = 1.
    path.rotate(0, UNIT);
    assert_eq!(path.vertices[0], v(0.0, 1.0));
    assert_eq!(path.vertices[1], v(-2.0, 0.0));
}

#[test]
fn contains_near_and_far() {
    let path = PolyPath::new(vec![v(0.0, 0.0), v(10.0, 0.0), v(5.0, 8.0)]);
    // Within one unit of the bottom edge.
    assert!(path.contains(v(5.0, 0.5)));
    // On a vertex.
    assert!(path.contains(v(10.0, 0.0)));
    // Far off every edge.
    assert!(!path.contains(v(5.0, 3.0)));
    assert!(!path.contains(v(50.0, 50.0)));
}

#[test]
fn is_between_far_point() {
    assert!(!is_between(v(0.0, 0.0), v(10.0, 0.0), v(5.0, 7.0)));
}

#[test]
fn center_of_mass_is_vertex_mean() {
    let path = PolyPath::new(vec![v(0.0, 0.0), v(2.0, 0.0), v(4.0, 6.0)]);
    assert_eq!(path.center_of_mass(), v(2.0, 2.0));
}

#[test]
fn edges_wrap_around() {
    let path = PolyPath::new(vec![v(0.0, 0.0), v(1.0, 0.0), v(0.0, 1.0)]);
    let edges = path.edges();
    assert_eq!(edges.len(), 3);
    assert_eq!(edges[0], (v(0.0, 0.0), v(1.0, 0.0)));
    assert_eq!(edges[1], (v(1.0, 0.0), v(0.0, 1.0)));
    assert_eq!(edges[2], (v(0.0, 1.0), v(0.0, 0.0)));
}

#[test]
fn directions_are_unit_vectors() {
    let path = PolyPath::new(vec![v(0.0, 0.0), v(2.0, 0.0), v(2.0, 3.0)]);
    let dirs = path.directions();
    assert_eq!(dirs.len(), 3);
    assert_eq!(dirs[0], Vec2i::new(UNIT, 0));
    assert_eq!(dirs[1], Vec2i::new(0, UNIT));
    // The closing edge from (2, 3) back to (0, 0).
    let d = dirs[2];
    let norm = ((d.x as f64).powi(2) + (d.y as f64).powi(2)).sqrt();
    assert!((norm - UNIT as f64).abs() < 3.0);
    assert!(d.x < 0 && d.y < 0);
}

#[test]
fn move_approx_points_from_closest_vertex() {
    let path = PolyPath::new(vec![v(0.0, 0.0), v(10.0, 0.0)]);
    let r = path.move_approx(v(9.0, 1.0));
    assert_eq!(r, v(-1.0, 1.0));
}

#[test]
fn dist_is_floor_euclidean() {
    assert_eq!(dist(v(0.0, 0.0), v(3.0, 4.0)), 5 * UNIT);
    assert_eq!(dist(v(1.0, 1.0), v(1.0, 1.0)), 0);
}

#[test]
fn isqrt_brackets_the_root() {
    assert_eq!(isqrt(0), 0);
    assert_eq!(isqrt(1), 1);
    assert_eq!(isqrt(2), 1);
    assert_eq!(isqrt(4), 2);
    assert_eq!(isqrt(1_250_000_000_000), 1_118_033);
    assert_eq!(isqrt(u64::MAX as u128 * u64::MAX as u128), u64::MAX);
}
