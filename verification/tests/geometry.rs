use pct_diff::dist::point_to_segment_distance;
use pct_diff::geom::{gc_distance, points_length_mm, Point, Polyline};
use pct_diff::sample::sample_along;

const DEG: i64 = 10_000_000;

#[test]
fn gc_distance_identical_points_is_zero() {
    let p = Point::new(-118 * DEG, 34 * DEG);
    let q = Point::new(-118 * DEG, 34 * DEG);
    assert_eq!(gc_distance(&p, &q), 0);
}

#[test]
fn gc_distance_known_value() {
    // 0.001 degrees of latitude is about 111.19 m on the mean-radius sphere.
    let p = Point::new(-118 * DEG, 34 * DEG);
    let q = Point::new(-118 * DEG, 34 * DEG + 10_000);
    let d = gc_distance(&p, &q);
    assert!(d > 111_000 && d < 111_400, "got {} mm", d);

    // The metric is symmetric on these inputs.
    assert_eq!(gc_distance(&q, &p), d);
}

#[test]
fn point_to_segment_projects_onto_interior() {
    // A point straight above the middle of a horizontal segment: the distance
    // is the offset itself, not the distance to an endpoint.
    let a = Point::new(-118 * DEG, 34 * DEG);
    let b = Point::new(-118 * DEG + 100_000, 34 * DEG);
    let p = Point::new(-118 * DEG + 50_000, 34 * DEG + 10_000);
    let d = point_to_segment_distance(&p, &a, &b);
    assert!(d > 111_000 && d < 111_400, "got {} mm", d);
}

#[test]
fn point_to_segment_clamps_to_endpoints() {
    // A point beyond the end of the segment is measured to that endpoint.
    let a = Point::new(-118 * DEG, 34 * DEG);
    let b = Point::new(-118 * DEG + 10_000, 34 * DEG);
    let p = Point::new(-118 * DEG + 20_000, 34 * DEG);
    let d = point_to_segment_distance(&p, &a, &b);
    let expected = gc_distance(&p, &b);
    assert_eq!(d, expected);

    let q = Point::new(-118 * DEG - 20_000, 34 * DEG);
    let d2 = point_to_segment_distance(&q, &a, &b);
    assert_eq!(d2, gc_distance(&q, &a));
}

#[test]
fn point_to_segment_degenerate_segment() {
    // A zero-length segment is measured as a point.
    let a = Point::new(-118 * DEG, 34 * DEG);
    let p = Point::new(-118 * DEG, 34 * DEG + 10_000);
    let d = point_to_segment_distance(&p, &a, &a);
    assert_eq!(d, gc_distance(&p, &a));
}

#[test]
fn point_on_segment_has_zero_distance() {
    let a = Point::new(-118 * DEG, 34 * DEG);
    let b = Point::new(-118 * DEG + 100_000, 34 * DEG);
    let p = Point::new(-118 * DEG + 30_000, 34 * DEG);
    assert_eq!(point_to_segment_distance(&p, &a, &b), 0);
}

#[test]
fn polyline_length_sums_segments() {
    let a = Point::new(-118 * DEG, 34 * DEG);
    let b = Point::new(-118 * DEG, 34 * DEG + 10_000);
    let c = Point::new(-118 * DEG, 34 * DEG + 20_000);
    let pl = Polyline::new(vec![a, b, c]);
    let total = pl.length_mm();
    let parts = gc_distance(&a, &b) as u128 + gc_distance(&b, &c) as u128;
    assert_eq!(total, parts);
    assert_eq!(points_length_mm(&pl.points), parts);

    let empty = Polyline::new(Vec::new());
    assert_eq!(empty.length_mm(), 0);
    let single = Polyline::new(vec![a]);
    assert_eq!(single.length_mm(), 0);
}

#[test]
fn sample_along_short_polylines_unchanged() {
    let empty = Polyline::new(Vec::new());
    assert!(sample_along(&empty, 25_000).is_empty());

    let p = Point::new(-118 * DEG, 34 * DEG);
    let single = Polyline::new(vec![p]);
    let out = sample_along(&single, 25_000);
    assert_eq!(out.len(), 1);
    assert_eq!(out[0], p);
}

#[test]
fn sample_along_interval_longer_than_line() {
    // An interval longer than the whole polyline yields just the endpoints.
    let a = Point::new(-118 * DEG, 34 * DEG);
    let b = Point::new(-118 * DEG + 1_000, 34 * DEG);
    let pl = Polyline::new(vec![a, b]);
    let out = sample_along(&pl, 1_000_000);
    assert_eq!(out.len(), 2);
    assert_eq!(out[0], a);
    assert_eq!(out[1], b);
}

#[test]
fn sample_along_spacing_counts() {
    // ~111.19 m of latitude sampled every 25 m: the interior samples land at
    // 25, 50, 75, 100 m, then the far vertex is appended.
    let a = Point::new(-118 * DEG, 34 * DEG);
    let b = Point::new(-118 * DEG, 34 * DEG + 10_000);
    let pl = Polyline::new(vec![a, b]);
    let out = sample_along(&pl, 25_000);
    assert_eq!(out.len(), 6);
    assert_eq!(out[0], a);
    assert_eq!(*out.last().unwrap(), b);
    // Interior samples step up the latitude monotonically.
    for w in out.windows(2) {
        assert!(w[0].lat < w[1].lat);
    }
}

#[test]
fn sample_along_skips_duplicate_vertices() {
    // Zero-length segments are passed over without resetting the owed
    // distance.
    let a = Point::new(-118 * DEG, 34 * DEG);
    let b = Point::new(-118 * DEG, 34 * DEG + 10_000);
    let pl = Polyline::new(vec![a, a, b, b]);
    let out = sample_along(&pl, 25_000);
    assert_eq!(out[0], a);
    assert_eq!(*out.last().unwrap(), b);
    assert!(out.len() > 2);
}
