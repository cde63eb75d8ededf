use pct_diff::detect::{find_divergences, Divergence};
use pct_diff::geom::{Point, Polyline, PctaSection};
use pct_diff::index::{build_index, IndexedSegment, SpatialIndex};
use pct_diff::sample::sample_along;

/// One degree in coordinate units of 1e-7 degrees.
const DEG: i64 = 10_000_000;

/// Helper: create a straight horizontal polyline from (lon, lat) for `n`
/// points spaced roughly `spacing` coordinate units apart along the x-axis at
/// the given latitude. Coordinates are in units of 1e-7 degrees.
fn horizontal_line(start_lon: i64, lat: i64, n: usize, spacing: i64) -> Polyline {
    let points: Vec<Point> = (0..n)
        .map(|i| Point::new(start_lon + i as i64 * spacing, lat))
        .collect();
    Polyline::new(points)
}

fn make_section(name: &str, ls: Polyline) -> PctaSection {
    PctaSection::new(name.to_string(), vec![ls])
}

fn clone_line(ls: &Polyline) -> Polyline {
    Polyline::new(ls.points.clone())
}

#[test]
fn identical_lines_no_divergences() {
    // -118.0 degrees, 34.0 degrees, spacing 0.001 degrees
    let line = horizontal_line(-118 * DEG, 34 * DEG, 100, 10_000);
    let osm_lines = vec![clone_line(&line)];
    let index = build_index(&osm_lines);
    let sections = vec![make_section("Test", line)];

    // threshold 10 m, min length 500 m, interval 25 m
    let divs = find_divergences(&sections, &index, 10_000, 500_000, 25_000);
    assert!(divs.is_empty(), "Identical lines should produce no divergences");
}

#[test]
fn parallel_lines_below_threshold() {
    // ~50m apart at 34 N latitude: 50m / 111320m per degree = 0.000449 degrees
    let pcta_line = horizontal_line(-118 * DEG, 34 * DEG, 200, 10_000);
    let osm_line = horizontal_line(-118 * DEG, 34 * DEG + 4_490, 200, 10_000);
    let index = build_index(&vec![osm_line]);
    let sections = vec![make_section("Test", pcta_line)];

    // threshold 100m, these are ~50m apart
    let divs = find_divergences(&sections, &index, 100_000, 500_000, 25_000);
    assert!(divs.is_empty(), "Lines ~50m apart should not diverge at 100m threshold");
}

#[test]
fn parallel_lines_above_threshold() {
    // ~200m apart: 200m / 111320 = 0.001797 degrees; spacing 0.0005 degrees
    let pcta_line = horizontal_line(-118 * DEG, 34 * DEG, 500, 5_000);
    let osm_line = horizontal_line(-118 * DEG, 34 * DEG + 17_970, 500, 5_000);
    let index = build_index(&vec![osm_line]);
    let sections = vec![make_section("Test", pcta_line)];

    let divs = find_divergences(&sections, &index, 100_000, 500_000, 25_000);
    assert!(!divs.is_empty(), "Lines ~200m apart should diverge at 100m threshold");
    assert_eq!(divs.len(), 1);
    assert!(divs[0].max_distance_mm > 100_000);
}

#[test]
fn diverge_and_reconverge() {
    // The reference goes straight, the comparison line detours in the middle
    let mut pcta_coords: Vec<Point> = Vec::new();
    let mut osm_coords: Vec<Point> = Vec::new();

    for i in 0..300i64 {
        // spacing 0.0003 degrees
        let lon = -118 * DEG + i * 3_000;
        pcta_coords.push(Point::new(lon, 34 * DEG));

        // the comparison diverges in the middle stretch (100..200)
        let lat_offset = if (100..200).contains(&i) {
            20_000 // 0.002 degrees, ~222m
        } else {
            0
        };
        osm_coords.push(Point::new(lon, 34 * DEG + lat_offset));
    }

    let pcta_line = Polyline::new(pcta_coords);
    let osm_line = Polyline::new(osm_coords);
    let index = build_index(&vec![osm_line]);
    let sections = vec![make_section("Test", pcta_line)];

    let divs = find_divergences(&sections, &index, 100_000, 500_000, 25_000);
    assert!(!divs.is_empty(), "Should detect the middle divergence");
}

#[test]
fn short_divergence_filtered_out() {
    // Very short divergence (< 500m min length)
    let mut pcta_coords: Vec<Point> = Vec::new();
    let mut osm_coords: Vec<Point> = Vec::new();

    for i in 0..100i64 {
        // spacing 0.0001 degrees
        let lon = -118 * DEG + i * 1_000;
        pcta_coords.push(Point::new(lon, 34 * DEG));

        // the comparison diverges for just 5 points (~50m)
        let lat_offset = if (45..50).contains(&i) { 20_000 } else { 0 };
        osm_coords.push(Point::new(lon, 34 * DEG + lat_offset));
    }

    let pcta_line = Polyline::new(pcta_coords);
    let osm_line = Polyline::new(osm_coords);
    let index = build_index(&vec![osm_line]);
    let sections = vec![make_section("Test", pcta_line)];

    let divs = find_divergences(&sections, &index, 100_000, 500_000, 25_000);
    assert!(divs.is_empty(), "Short divergence should be filtered out");
}

#[test]
fn multiple_divergences() {
    let mut pcta_coords: Vec<Point> = Vec::new();
    let mut osm_coords: Vec<Point> = Vec::new();

    for i in 0..600i64 {
        let lon = -118 * DEG + i * 3_000;
        pcta_coords.push(Point::new(lon, 34 * DEG));

        // Two divergent stretches
        let lat_offset = if (50..150).contains(&i) || (300..400).contains(&i) {
            20_000
        } else {
            0
        };
        osm_coords.push(Point::new(lon, 34 * DEG + lat_offset));
    }

    let pcta_line = Polyline::new(pcta_coords);
    let osm_line = Polyline::new(osm_coords);
    let index = build_index(&vec![osm_line]);
    let sections = vec![make_section("Test", pcta_line)];

    let divs = find_divergences(&sections, &index, 100_000, 500_000, 25_000);
    assert!(divs.len() >= 2, "Should detect two separate divergences, got {}", divs.len());
}

#[test]
fn empty_inputs_no_panics() {
    let index = build_index(&Vec::new());
    let sections: Vec<PctaSection> = vec![];
    let divs = find_divergences(&sections, &index, 100_000, 500_000, 25_000);
    assert!(divs.is_empty());

    // Non-empty sections but empty index
    let line = horizontal_line(-118 * DEG, 34 * DEG, 10, 10_000);
    let sections = vec![make_section("Test", line)];
    let index = build_index(&Vec::new());
    let divs = find_divergences(&sections, &index, 100_000, 500_000, 25_000);
    // With an empty index every point has the largest distance, so everything
    // is divergent. This should not panic.
    let _: Vec<Divergence> = divs;
}

#[test]
fn sample_along_basic() {
    let line = horizontal_line(-118 * DEG, 34 * DEG, 50, 10_000);
    let samples = sample_along(&line, 25_000);
    assert!(samples.len() > 2, "Should produce multiple samples");
    assert_eq!(samples[0], line.points[0], "First sample should be first coord");
    assert_eq!(samples.last(), line.points.last(), "Last sample should be last coord");
}

#[test]
fn empty_index_nearest_is_none() {
    let index: SpatialIndex = build_index(&Vec::new());
    assert!(index.is_empty());
    let p = Point::new(-118 * DEG, 34 * DEG);
    assert!(index.nearest(&p).is_none());
    assert_eq!(index.nearest_distance(&p), u64::MAX);
}

#[test]
fn nearest_returns_closest_segment() {
    // Two one-segment lines a degree of latitude apart; a query just above
    // the northern one comes back with that segment.
    let south = horizontal_line(-118 * DEG, 34 * DEG, 2, 10_000);
    let north = horizontal_line(-118 * DEG, 35 * DEG, 2, 10_000);
    let index = build_index(&vec![south, north]);
    let q = Point::new(-118 * DEG, 35 * DEG + 1_000);
    let seg = index.nearest(&q).unwrap();
    assert_eq!(
        seg,
        IndexedSegment::new(
            Point::new(-118 * DEG, 35 * DEG),
            Point::new(-118 * DEG + 10_000, 35 * DEG)
        )
    );
}

#[test]
fn empty_index_detection_degrades() {
    // Against an empty index everything is divergent; with a small minimum
    // length one record spanning the whole line comes out, with a huge
    // minimum length nothing does.
    let line = horizontal_line(-118 * DEG, 34 * DEG, 10, 10_000);
    let index = build_index(&Vec::new());
    let sections = vec![make_section("Test", line)];
    let divs = find_divergences(&sections, &index, 100_000, 1, 25_000);
    assert_eq!(divs.len(), 1);
    assert_eq!(divs[0].max_distance_mm, u64::MAX);

    let line2 = horizontal_line(-118 * DEG, 34 * DEG, 10, 10_000);
    let sections2 = vec![make_section("Test", line2)];
    let divs2 = find_divergences(&sections2, &index, 100_000, u64::MAX, 25_000);
    assert!(divs2.is_empty());
}

#[test]
fn min_length_boundary() {
    // A run at exactly the minimum length is emitted; one millimeter above
    // its length it is not.
    let pcta_line = horizontal_line(-118 * DEG, 34 * DEG, 200, 5_000);
    let osm_line = horizontal_line(-118 * DEG, 34 * DEG + 17_970, 200, 5_000);
    let index = build_index(&vec![osm_line]);
    let sections = vec![make_section("Test", pcta_line)];

    let divs = find_divergences(&sections, &index, 100_000, 1, 25_000);
    assert_eq!(divs.len(), 1);
    let run_length = divs[0].length_mm;
    assert!(run_length > 0);

    let at_boundary = find_divergences(&sections, &index, 100_000, run_length as u64, 25_000);
    assert_eq!(at_boundary.len(), 1, "A run at exactly the minimum length is emitted");
    assert_eq!(at_boundary[0].length_mm, run_length);

    let above_boundary =
        find_divergences(&sections, &index, 100_000, run_length as u64 + 1, 25_000);
    assert!(above_boundary.is_empty(), "A run shorter than the minimum is never emitted");
}

#[test]
fn two_hundred_vertex_scenario() {
    // A 200-vertex horizontal reference line at a fixed latitude, compared
    // against an identical comparison line, sampled every 25 m with a 10 m
    // threshold: no divergence.
    let reference = horizontal_line(-118 * DEG, 34 * DEG, 200, 10_000);
    let same = horizontal_line(-118 * DEG, 34 * DEG, 200, 10_000);
    let index = build_index(&vec![same]);
    let sections = vec![make_section("Test", reference)];
    let divs = find_divergences(&sections, &index, 10_000, 500_000, 25_000);
    assert_eq!(divs.len(), 0);

    // Offsetting the comparison line by ~200 m and rerunning with a 100 m
    // threshold and 500 m minimum length: exactly one divergence, deeper
    // than 100 m.
    let reference2 = horizontal_line(-118 * DEG, 34 * DEG, 200, 10_000);
    let offset = horizontal_line(-118 * DEG, 34 * DEG + 18_000, 200, 10_000);
    let index2 = build_index(&vec![offset]);
    let sections2 = vec![make_section("Test", reference2)];
    let divs2 = find_divergences(&sections2, &index2, 100_000, 500_000, 25_000);
    assert_eq!(divs2.len(), 1);
    assert!(divs2[0].max_distance_mm > 100_000);
}

#[test]
fn divergence_record_fields() {
    let pcta_line = horizontal_line(-118 * DEG, 34 * DEG, 500, 5_000);
    let osm_line = horizontal_line(-118 * DEG, 34 * DEG + 17_970, 500, 5_000);
    let index = build_index(&vec![osm_line]);
    let sections = vec![make_section("Section A", pcta_line)];

    let divs = find_divergences(&sections, &index, 100_000, 500_000, 25_000);
    assert_eq!(divs.len(), 1);
    let d = &divs[0];
    assert_eq!(d.section_name, "Section A");
    // The lines are ~200 m apart everywhere, so both the maximum and the
    // mean land near 200 m.
    assert!(d.max_distance_mm > 190_000 && d.max_distance_mm < 210_000);
    assert!(d.mean_distance_mm > 190_000 && d.mean_distance_mm < 210_000);
    assert!(d.mean_distance_mm <= d.max_distance_mm);
    // The run spans nearly the whole ~27.7 km line.
    assert!(d.length_mm > 20_000_000);
    assert!(d.pcta_segment.points.len() > 2);
}
